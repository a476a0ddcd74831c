//! Character-data processing: trimming a chunk, splitting it into lines,
//! and turning each line's first tab-separated field into a token.

use vstd::prelude::*;
use crate::corpus::{Token, TokenV, tokens_view};

verus! {

/// Whether a character has the Unicode White_Space property: the code
/// points that std's documentation lists for char::is_whitespace.
pub open spec fn unicode_whitespace(c: char) -> bool {
    let u = c as u32;
    (0x0009 <= u && u <= 0x000D) || u == 0x0020 || u == 0x0085 || u == 0x00A0 || u == 0x1680 || (
    0x2000 <= u && u <= 0x200A) || u == 0x2028 || u == 0x2029 || u == 0x202F || u == 0x205F || u
        == 0x3000
}

/// Relies on char::is_whitespace: true exactly for the characters with
/// the Unicode White_Space property, the set written out in
/// `unicode_whitespace`.
#[verifier::external_body]
fn is_whitespace_char(c: char) -> (r: bool)
    ensures
        r == unicode_whitespace(c),
{
    c.is_whitespace()
}

/// The text with its leading whitespace removed.
pub open spec fn trim_front(s: Seq<char>) -> Seq<char>
    decreases s.len(),
{
    if s.len() > 0 && unicode_whitespace(s[0]) {
        trim_front(s.drop_first())
    } else {
        s
    }
}

/// The text with its trailing whitespace removed.
pub open spec fn trim_back(s: Seq<char>) -> Seq<char>
    decreases s.len(),
{
    if s.len() > 0 && unicode_whitespace(s.last()) {
        trim_back(s.drop_last())
    } else {
        s
    }
}

/// The text with leading and trailing whitespace removed.
pub open spec fn spec_trim(s: Seq<char>) -> Seq<char> {
    trim_back(trim_front(s))
}

proof fn lemma_trim_front_at(s: Seq<char>, k: int)
    requires
        0 <= k <= s.len(),
        forall|j: int| 0 <= j < k ==> unicode_whitespace(s[j]),
        k < s.len() ==> !unicode_whitespace(s[k]),
    ensures
        trim_front(s) == s.subrange(k, s.len() as int),
    decreases k,
{
    if k == 0 {
        assert(trim_front(s) =~= s.subrange(0, s.len() as int));
    } else {
        lemma_trim_front_at(s.drop_first(), k - 1);
        assert(s.drop_first().subrange(k - 1, s.drop_first().len() as int) =~= s.subrange(
            k,
            s.len() as int,
        ));
    }
}

proof fn lemma_trim_back_at(s: Seq<char>, k: int)
    requires
        0 <= k <= s.len(),
        forall|j: int| k <= j < s.len() ==> unicode_whitespace(s[j]),
        k > 0 ==> !unicode_whitespace(s[k - 1]),
    ensures
        trim_back(s) == s.subrange(0, k),
    decreases s.len() - k,
{
    if k == s.len() {
        assert(trim_back(s) =~= s.subrange(0, k));
    } else {
        lemma_trim_back_at(s.drop_last(), k);
        assert(s.drop_last().subrange(0, k) =~= s.subrange(0, k));
    }
}

/// Removes leading and trailing whitespace from a chunk of character data.
pub fn trim_text(s: &str) -> (r: String)
    ensures
        r@ == spec_trim(s@),
{
    let n: usize = s.unicode_len();
    let mut start: usize = 0;
    while start < n && is_whitespace_char(s.get_char(start))
        invariant
            0 <= start <= n,
            n == s@.len(),
            forall|j: int| 0 <= j < start ==> unicode_whitespace(s@[j]),
        decreases n - start,
    {
        start = start + 1;
    }
    let mut end: usize = n;
    while end > start && is_whitespace_char(s.get_char(end - 1))
        invariant
            start <= end <= n,
            n == s@.len(),
            start < n ==> !unicode_whitespace(s@[start as int]),
            forall|j: int| end <= j < n ==> unicode_whitespace(s@[j]),
        decreases end,
    {
        end = end - 1;
    }
    let piece = s.substring_char(start, end);
    let r = piece.to_owned();
    proof {
        lemma_trim_front_at(s@, start as int);
        let t = s@.subrange(start as int, s@.len() as int);
        lemma_trim_back_at(t, end - start as int);
        assert(t.subrange(0, end - start as int) =~= s@.subrange(start as int, end as int));
    }
    r
}

/// The first tab-separated field of a line.
pub open spec fn first_field(line: Seq<char>) -> Seq<char>
    decreases line.len(),
{
    if line.len() == 0 {
        line
    } else if line[0] == '\t' {
        Seq::empty()
    } else {
        seq![line[0]] + first_field(line.drop_first())
    }
}

proof fn lemma_first_field_at(line: Seq<char>, k: int)
    requires
        0 <= k <= line.len(),
        forall|j: int| 0 <= j < k ==> line[j] != '\t',
        k < line.len() ==> line[k] == '\t',
    ensures
        first_field(line) == line.subrange(0, k),
    decreases k,
{
    if k == 0 {
        assert(first_field(line) =~= line.subrange(0, 0));
    } else {
        lemma_first_field_at(line.drop_first(), k - 1);
        assert(seq![line[0]] + line.drop_first().subrange(0, k - 1) =~= line.subrange(0, k));
    }
}

/// A chunk split at line breaks, as the line iterator of the original
/// format sees it: n line breaks give n + 1 lines.
pub open spec fn split_lines(s: Seq<char>) -> Seq<Seq<char>>
    decreases s.len(),
{
    if s.len() == 0 {
        seq![s]
    } else if s[0] == '\n' {
        seq![Seq::<char>::empty()] + split_lines(s.drop_first())
    } else {
        let rest = split_lines(s.drop_first());
        seq![seq![s[0]] + rest[0]] + rest.drop_first()
    }
}

proof fn lemma_split_lines_nonempty(s: Seq<char>)
    ensures
        split_lines(s).len() >= 1,
    decreases s.len(),
{
    if s.len() > 0 {
        lemma_split_lines_nonempty(s.drop_first());
    }
}

proof fn lemma_split_lines_at(s: Seq<char>, k: int)
    requires
        0 <= k <= s.len(),
        forall|j: int| 0 <= j < k ==> s[j] != '\n',
        k < s.len() ==> s[k] == '\n',
    ensures
        k < s.len() ==> split_lines(s) =~~= seq![s.subrange(0, k)] + split_lines(
            s.subrange(k + 1, s.len() as int),
        ),
        k == s.len() ==> split_lines(s) =~~= seq![s],
    decreases k,
{
    lemma_split_lines_nonempty(s);
    if k == 0 {
        if s.len() == 0 {
        } else {
            assert(s[0] == '\n');
            assert(s.subrange(0, 0) =~= Seq::<char>::empty());
            assert(s.drop_first() =~= s.subrange(1, s.len() as int));
        }
    } else {
        let d = s.drop_first();
        lemma_split_lines_nonempty(d);
        lemma_split_lines_at(d, k - 1);
        let rest = split_lines(d);
        if k < s.len() {
            assert(rest =~~= seq![d.subrange(0, k - 1)] + split_lines(
                d.subrange(k, d.len() as int),
            ));
            assert(rest[0] == d.subrange(0, k - 1));
            assert(seq![s[0]] + d.subrange(0, k - 1) =~= s.subrange(0, k));
            assert(rest.drop_first() =~~= split_lines(d.subrange(k, d.len() as int)));
            assert(d.subrange(k, d.len() as int) =~= s.subrange(k + 1, s.len() as int));
        } else {
            assert(rest =~~= seq![d]);
            assert(rest[0] == d);
            assert(seq![s[0]] + d =~= s);
            assert(rest.drop_first() =~~= Seq::<Seq<char>>::empty());
        }
    }
}

/// The tokens one line yields: its first tab field as the surface form,
/// with the active feature annotation; a line whose first field is empty
/// yields no token.
pub open spec fn line_tokens(line: Seq<char>, feats: Seq<char>) -> Seq<TokenV> {
    if first_field(line).len() > 0 {
        seq![TokenV { form: first_field(line), features: feats }]
    } else {
        Seq::empty()
    }
}

pub open spec fn lines_tokens(lines: Seq<Seq<char>>, feats: Seq<char>) -> Seq<TokenV>
    decreases lines.len(),
{
    if lines.len() == 0 {
        Seq::empty()
    } else {
        line_tokens(lines[0], feats) + lines_tokens(lines.drop_first(), feats)
    }
}

/// The tokens a trimmed character-data chunk yields: one per line whose
/// first tab-separated field is non-empty.
pub open spec fn chunk_tokens(trimmed: Seq<char>, feats: Seq<char>) -> Seq<TokenV> {
    lines_tokens(split_lines(trimmed), feats)
}

/// Every token a chunk yields carries the active annotation and a
/// non-empty surface form.
pub proof fn lemma_lines_tokens_wf(lines: Seq<Seq<char>>, feats: Seq<char>)
    ensures
        forall|i: int|
            0 <= i < lines_tokens(lines, feats).len() ==> (#[trigger] lines_tokens(lines, feats)[i]).features
                == feats && lines_tokens(lines, feats)[i].wf(),
    decreases lines.len(),
{
    if lines.len() > 0 {
        lemma_lines_tokens_wf(lines.drop_first(), feats);
        let head = line_tokens(lines[0], feats);
        let rest = lines_tokens(lines.drop_first(), feats);
        assert forall|i: int| 0 <= i < lines_tokens(lines, feats).len() implies (
        #[trigger] lines_tokens(lines, feats)[i]).features == feats && lines_tokens(
            lines,
            feats,
        )[i].wf() by {
            if i < head.len() {
                assert(lines_tokens(lines, feats)[i] == head[i]);
            } else {
                assert(lines_tokens(lines, feats)[i] == rest[i - head.len()]);
            }
        }
    }
}

proof fn lemma_lines_tokens_empty_chunk(feats: Seq<char>)
    ensures
        chunk_tokens(Seq::<char>::empty(), feats) == Seq::<TokenV>::empty(),
{
    let e = Seq::<char>::empty();
    assert(split_lines(e) =~~= seq![e]);
    assert(seq![e].drop_first() =~~= Seq::<Seq<char>>::empty());
    assert(lines_tokens(seq![e], feats) == line_tokens(e, feats) + lines_tokens(
        seq![e].drop_first(),
        feats,
    ));
    assert(first_field(e).len() == 0);
    assert(line_tokens(e, feats) == Seq::<TokenV>::empty());
    assert(chunk_tokens(e, feats) =~= Seq::<TokenV>::empty());
}

/// Appends to `acc` the tokens of one character-data chunk: the chunk is
/// trimmed, split at line breaks, and each line's first tab-separated
/// field becomes a token's form; a line with an empty first field yields
/// no token.
pub fn push_chunk_tokens(text: &str, feats: &String, acc: &mut Vec<Token>)
    ensures
        tokens_view(final(acc)@) == tokens_view(old(acc)@) + chunk_tokens(
            spec_trim(text@),
            feats@,
        ),
{
    let trimmed: String = trim_text(text);
    let t: &str = trimmed.as_str();
    let n: usize = t.unicode_len();
    let ghost whole: Seq<char> = t@;
    let mut p: usize = 0;
    proof {
        assert(whole.subrange(0, n as int) =~= whole);
    }
    while p < n
        invariant
            0 <= p <= n,
            n == whole.len(),
            t@ == whole,
            whole == spec_trim(text@),
            tokens_view(acc@) + lines_tokens(
                split_lines(whole.subrange(p as int, n as int)),
                feats@,
            ) == tokens_view(old(acc)@) + chunk_tokens(whole, feats@),
        decreases n - p,
    {
        let mut k: usize = p;
        while k < n && t.get_char(k) != '\n'
            invariant
                p <= k <= n,
                n == t@.len(),
                forall|j: int| p <= j < k ==> t@[j] != '\n',
            decreases n - k,
        {
            k = k + 1;
        }
        let mut e: usize = p;
        while e < k && t.get_char(e) != '\t'
            invariant
                p <= e <= k <= n,
                n == t@.len(),
                forall|j: int| p <= j < e ==> t@[j] != '\t',
            decreases k - e,
        {
            e = e + 1;
        }
        let ghost acc_before: Seq<Token> = acc@;
        if e > p {
            let form: String = t.substring_char(p, e).to_owned();
            let tok = Token::new(form, feats.clone());
            acc.push(tok);
            proof {
                assert(tokens_view(acc@) =~= tokens_view(acc_before) + seq![
                    TokenV { form: whole.subrange(p as int, e as int), features: feats@ },
                ]);
            }
        }
        proof {
            let rem = whole.subrange(p as int, n as int);
            let kk: int = (k - p) as int;
            let ee: int = (e - p) as int;
            assert forall|j: int| 0 <= j < kk implies rem[j] != '\n' by {
                assert(rem[j] == whole[p + j]);
            }
            lemma_split_lines_at(rem, kk);
            let line = rem.subrange(0, kk);
            assert forall|j: int| 0 <= j < ee implies line[j] != '\t' by {
                assert(line[j] == whole[p + j]);
            }
            lemma_first_field_at(line, ee);
            assert(first_field(line) =~= whole.subrange(p as int, e as int));
            if k < n {
                assert(split_lines(rem) =~~= seq![line] + split_lines(
                    rem.subrange(kk + 1, rem.len() as int),
                ));
                assert(rem.subrange(kk + 1, rem.len() as int) =~= whole.subrange(
                    k + 1 as int,
                    n as int,
                ));
                let tail = seq![line] + split_lines(whole.subrange(k + 1 as int, n as int));
                assert(tail[0] == line);
                assert(tail.drop_first() =~~= split_lines(whole.subrange(k + 1 as int, n as int)));
                assert(lines_tokens(split_lines(rem), feats@) == line_tokens(line, feats@)
                    + lines_tokens(split_lines(whole.subrange(k + 1 as int, n as int)), feats@));
            } else {
                assert(split_lines(rem) =~~= seq![rem]);
                assert(line =~= rem);
                let tail = seq![rem];
                assert(tail[0] == rem);
                assert(tail.drop_first() =~~= Seq::<Seq<char>>::empty());
                assert(line_tokens(rem, feats@) + Seq::<TokenV>::empty() =~= line_tokens(
                    rem,
                    feats@,
                ));
                assert(split_lines(rem) == tail);
                assert(lines_tokens(tail, feats@) == line_tokens(tail[0], feats@) + lines_tokens(
                    tail.drop_first(),
                    feats@,
                ));
                assert(lines_tokens(Seq::<Seq<char>>::empty(), feats@) == Seq::<TokenV>::empty());
                assert(lines_tokens(split_lines(rem), feats@) == line_tokens(rem, feats@));
                lemma_lines_tokens_empty_chunk(feats@);
                assert(whole.subrange(n as int, n as int) =~= Seq::<char>::empty());
            }
            if e > p {
                assert(line_tokens(line, feats@) == seq![
                    TokenV { form: whole.subrange(p as int, e as int), features: feats@ },
                ]);
            } else {
                assert(first_field(line).len() == 0);
                assert(line_tokens(line, feats@) == Seq::<TokenV>::empty());
                assert(tokens_view(acc@) + Seq::<TokenV>::empty() =~= tokens_view(acc@));
            }
            assert(tokens_view(acc_before) + lines_tokens(split_lines(rem), feats@)
                == tokens_view(old(acc)@) + chunk_tokens(whole, feats@));
        }
        p = if k < n {
            k + 1
        } else {
            n
        };
    }
    proof {
        assert(whole.subrange(n as int, n as int) =~= Seq::<char>::empty());
        lemma_lines_tokens_empty_chunk(feats@);
        assert(tokens_view(acc@) + Seq::<TokenV>::empty() =~= tokens_view(acc@));
    }
}

} // verus!
