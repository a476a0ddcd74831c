//! The corpus data model: tokens and sentences.

use vstd::prelude::*;

verus! {

/// Mathematical model of a token: its surface form and the feature
/// annotation of the sentence it belongs to.
#[verifier::ext_equal]
pub ghost struct TokenV {
    pub form: Seq<char>,
    pub features: Seq<char>,
}

impl TokenV {
    /// A token always carries a non-empty surface form.
    pub open spec fn wf(self) -> bool {
        self.form.len() > 0
    }
}

/// A single morphologically tagged word. Immutable once constructed.
pub struct Token {
    form: String,
    features: String,
}

impl View for Token {
    type V = TokenV;

    closed spec fn view(&self) -> TokenV {
        TokenV { form: self.form@, features: self.features@ }
    }
}

impl Token {
    pub fn new(form: String, features: String) -> (t: Token)
        requires
            form@.len() > 0,
        ensures
            t@ == (TokenV { form: form@, features: features@ }),
    {
        Token { form, features }
    }

    pub fn form(&self) -> (r: &String)
        ensures
            r@ == self@.form,
    {
        &self.form
    }

    pub fn features(&self) -> (r: &String)
        ensures
            r@ == self@.features,
    {
        &self.features
    }
}

/// The model of a sequence of tokens.
pub open spec fn tokens_view(s: Seq<Token>) -> Seq<TokenV> {
    Seq::new(s.len(), |i: int| s[i]@)
}

/// An ordered sequence of tokens, in document order. Constructed whole when
/// the decoder sees the closing boundary of a sentence element.
pub struct Sentence {
    tokens: Vec<Token>,
}

impl View for Sentence {
    type V = Seq<TokenV>;

    closed spec fn view(&self) -> Seq<TokenV> {
        tokens_view(self.tokens@)
    }
}

impl Sentence {
    pub fn new(tokens: Vec<Token>) -> (s: Sentence)
        ensures
            s@ == tokens_view(tokens@),
    {
        Sentence { tokens }
    }

    pub fn tokens(&self) -> (r: &Vec<Token>)
        ensures
            tokens_view(r@) == self@,
    {
        &self.tokens
    }

    pub fn len(&self) -> (n: usize)
        ensures
            n == self@.len(),
    {
        self.tokens.len()
    }

    pub fn get(&self, i: usize) -> (t: &Token)
        requires
            i < self@.len(),
        ensures
            t@ == self@[i as int],
    {
        &self.tokens[i]
    }
}

} // verus!
