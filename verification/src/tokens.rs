//! A plain model of Rust token streams.
//!
//! Emitted code is a flat sequence of tokens in which groups are written as
//! an opening delimiter, their contents and a closing delimiter. Interpolated
//! expressions are carried verbatim as their source text.
use vstd::prelude::*;

verus! {

/// The three kinds of delimited groups.
#[derive(Clone, Copy, Debug, PartialEq, Eq)]
pub enum Delim {
    Paren,
    Bracket,
    Brace,
}

/// One token of emitted code.
#[derive(Debug)]
pub enum Tok {
    /// An identifier or keyword.
    Ident(String),
    /// An operator or separator; several characters are joined (`..`, `!=`).
    Punct(String),
    /// An integer literal with the `usize` suffix, as interpolated integers are written.
    Suffixed(usize),
    /// An integer literal without suffix, as written in templates.
    Unsuffixed(usize),
    /// The start of a delimited group.
    Open(Delim),
    /// The end of a delimited group.
    Close(Delim),
    /// An interpolated expression, kept as its source text.
    Expr(String),
}

/// The mathematical value of a token.
pub enum TokV {
    Ident(Seq<char>),
    Punct(Seq<char>),
    Suffixed(usize),
    Unsuffixed(usize),
    Open(Delim),
    Close(Delim),
    Expr(Seq<char>),
}

impl View for Tok {
    type V = TokV;

    open spec fn view(&self) -> TokV {
        match self {
            Tok::Ident(s) => TokV::Ident(s@),
            Tok::Punct(s) => TokV::Punct(s@),
            Tok::Suffixed(n) => TokV::Suffixed(*n),
            Tok::Unsuffixed(n) => TokV::Unsuffixed(*n),
            Tok::Open(d) => TokV::Open(*d),
            Tok::Close(d) => TokV::Close(*d),
            Tok::Expr(s) => TokV::Expr(s@),
        }
    }
}

impl Tok {
    /// A copy of the token.
    pub fn duplicate(&self) -> (r: Tok)
        ensures
            r@ == self@,
    {
        match self {
            Tok::Ident(s) => Tok::Ident(s.clone()),
            Tok::Punct(s) => Tok::Punct(s.clone()),
            Tok::Suffixed(n) => Tok::Suffixed(*n),
            Tok::Unsuffixed(n) => Tok::Unsuffixed(*n),
            Tok::Open(d) => Tok::Open(*d),
            Tok::Close(d) => Tok::Close(*d),
            Tok::Expr(s) => Tok::Expr(s.clone()),
        }
    }
}

/// The values of a sequence of tokens.
pub open spec fn tok_values(s: Seq<Tok>) -> Seq<TokV> {
    s.map_values(|t: Tok| t@)
}

/// The decimal digit character of `d`.
pub open spec fn digit_char(d: nat) -> char {
    if d == 0 {
        '0'
    } else if d == 1 {
        '1'
    } else if d == 2 {
        '2'
    } else if d == 3 {
        '3'
    } else if d == 4 {
        '4'
    } else if d == 5 {
        '5'
    } else if d == 6 {
        '6'
    } else if d == 7 {
        '7'
    } else if d == 8 {
        '8'
    } else {
        '9'
    }
}

/// The decimal notation of `n`, without leading zeros.
pub open spec fn decimal(n: nat) -> Seq<char>
    decreases n,
{
    if n < 10 {
        seq![digit_char(n)]
    } else {
        decimal(n / 10).push(digit_char(n % 10))
    }
}

/// The one-character string of the decimal digit `d`.
fn digit_str(d: usize) -> (r: &'static str)
    requires
        d < 10,
    ensures
        r@ == seq![digit_char(d as nat)],
{
    proof {
        reveal_strlit("0");
        reveal_strlit("1");
        reveal_strlit("2");
        reveal_strlit("3");
        reveal_strlit("4");
        reveal_strlit("5");
        reveal_strlit("6");
        reveal_strlit("7");
        reveal_strlit("8");
        reveal_strlit("9");
    }
    if d == 0 {
        "0"
    } else if d == 1 {
        "1"
    } else if d == 2 {
        "2"
    } else if d == 3 {
        "3"
    } else if d == 4 {
        "4"
    } else if d == 5 {
        "5"
    } else if d == 6 {
        "6"
    } else if d == 7 {
        "7"
    } else if d == 8 {
        "8"
    } else {
        "9"
    }
}

/// Appends the decimal notation of `n` to `out`.
pub fn push_decimal(out: &mut String, n: usize)
    ensures
        final(out)@ == old(out)@ + decimal(n as nat),
    decreases n,
{
    if n < 10 {
        out.append(digit_str(n));
    } else {
        push_decimal(out, n / 10);
        out.append(digit_str(n % 10));
        assert(final(out)@ =~= old(out)@ + decimal(n as nat));
    }
}

/// An identifier of emitted code.
#[derive(Debug)]
pub struct Ident {
    text: String,
}

impl View for Ident {
    type V = Seq<char>;

    closed spec fn view(&self) -> Seq<char> {
        self.text@
    }
}

impl Ident {
    /// An identifier with the given text.
    pub fn new(text: &str) -> (r: Ident)
        ensures
            r@ == text@,
    {
        Ident { text: String::from_str(text) }
    }

    /// The identifier made of `prefix` followed by the decimal notation of `n`.
    pub fn numbered(prefix: &str, n: usize) -> (r: Ident)
        ensures
            r@ == prefix@ + decimal(n as nat),
    {
        let mut text = String::from_str(prefix);
        push_decimal(&mut text, n);
        Ident { text }
    }

    /// An identifier owning the given text.
    pub fn from_string(text: String) -> (r: Ident)
        ensures
            r@ == text@,
    {
        Ident { text }
    }

    /// The text of the identifier.
    pub fn as_str(&self) -> (r: &str)
        ensures
            r@ == self@,
    {
        self.text.as_str()
    }
}

/// An expression handed to an emitter, kept as its source text.
#[derive(Debug)]
pub struct Expr {
    text: String,
}

impl View for Expr {
    type V = Seq<char>;

    closed spec fn view(&self) -> Seq<char> {
        self.text@
    }
}

impl Expr {
    /// An expression with the given source text.
    pub fn new(text: &str) -> (r: Expr)
        ensures
            r@ == text@,
    {
        Expr { text: String::from_str(text) }
    }

    /// An expression owning the given source text.
    pub fn from_string(text: String) -> (r: Expr)
        ensures
            r@ == text@,
    {
        Expr { text }
    }

    /// The source text of the expression.
    pub fn as_str(&self) -> (r: &str)
        ensures
            r@ == self@,
    {
        self.text.as_str()
    }
}

/// A sequence of tokens under construction.
#[derive(Debug)]
pub struct TokenStream {
    toks: Vec<Tok>,
}

impl View for TokenStream {
    type V = Seq<TokV>;

    closed spec fn view(&self) -> Seq<TokV> {
        tok_values(self.toks@)
    }
}

/// The token values of each stream of a sequence of streams.
pub open spec fn stream_values(v: Seq<TokenStream>) -> Seq<Seq<TokV>> {
    v.map_values(|t: TokenStream| t@)
}

/// All streams of a sequence, one after the other (`#(#v)*`).
pub open spec fn concat_streams(v: Seq<TokenStream>) -> Seq<TokV> {
    stream_values(v).flatten()
}

/// An identifier token.
pub open spec fn ident(s: Seq<char>) -> TokV {
    TokV::Ident(s)
}

/// A punctuation token.
pub open spec fn punct(s: Seq<char>) -> TokV {
    TokV::Punct(s)
}

/// `inner` enclosed in the delimiters `d`.
pub open spec fn group(d: Delim, inner: Seq<TokV>) -> Seq<TokV> {
    seq![TokV::Open(d)] + inner + seq![TokV::Close(d)]
}

/// Pushing a stream onto a sequence of streams appends its tokens to the concatenation.
pub proof fn lemma_concat_streams_push(v: Seq<TokenStream>, t: TokenStream)
    ensures
        stream_values(v.push(t)) == stream_values(v).push(t@),
        concat_streams(v.push(t)) == concat_streams(v) + t@,
{
    assert(stream_values(v.push(t)) =~= stream_values(v).push(t@));
    stream_values(v).lemma_flatten_push(t@);
}

/// The empty sequence of streams concatenates to nothing.
pub proof fn lemma_concat_streams_empty(v: Seq<TokenStream>)
    requires
        v.len() == 0,
    ensures
        concat_streams(v) == Seq::<TokV>::empty(),
{
    assert(stream_values(v) =~= Seq::<Seq<TokV>>::empty());
}

/// Whether `t` is a delimiter token.
pub open spec fn is_delim(t: TokV) -> bool {
    t is Open || t is Close
}

/// The delimiters of the groups still open after `s`, innermost last; `None`
/// when `s` closes a group that is not open, or closes it with another
/// delimiter.
pub open spec fn open_groups(s: Seq<TokV>) -> Option<Seq<Delim>>
    decreases s.len(),
{
    if s.len() == 0 {
        Some(Seq::empty())
    } else {
        match open_groups(s.drop_last()) {
            None => None,
            Some(st) => match s.last() {
                TokV::Open(d) => Some(st.push(d)),
                TokV::Close(d) => if st.len() > 0 && st.last() == d {
                    Some(st.drop_last())
                } else {
                    None
                },
                _ => Some(st),
            },
        }
    }
}

/// Every group of `s` is closed, by the delimiter that opened it, and no
/// group is closed before it is opened.
pub open spec fn balanced(s: Seq<TokV>) -> bool {
    open_groups(s) == Some(Seq::<Delim>::empty())
}

/// Appending a stream that closes no group it did not open adds the groups
/// it leaves open.
pub proof fn lemma_open_groups_append(a: Seq<TokV>, b: Seq<TokV>)
    requires
        open_groups(a) is Some,
        open_groups(b) is Some,
    ensures
        open_groups(a + b) == Some(open_groups(a)->0 + open_groups(b)->0),
    decreases b.len(),
{
    if b.len() == 0 {
        assert(a + b =~= a);
        assert(open_groups(a)->0 + open_groups(b)->0 =~= open_groups(a)->0);
    } else {
        let st = open_groups(a)->0;
        let b0 = b.drop_last();
        assert((a + b).drop_last() =~= a + b0);
        assert((a + b).last() == b.last());
        lemma_open_groups_append(a, b0);
        let st0 = open_groups(b0)->0;
        match b.last() {
            TokV::Open(d) => {
                assert((st + st0).push(d) =~= st + st0.push(d));
            },
            TokV::Close(d) => {
                assert((st + st0).last() == st0.last());
                assert((st + st0).drop_last() =~= st + st0.drop_last());
            },
            _ => {},
        }
    }
}

/// Balanced streams stay balanced when concatenated.
pub proof fn lemma_balanced_append(a: Seq<TokV>, b: Seq<TokV>)
    requires
        balanced(a),
        balanced(b),
    ensures
        balanced(a + b),
{
    lemma_open_groups_append(a, b);
    assert(Seq::<Delim>::empty() + Seq::<Delim>::empty() =~= Seq::<Delim>::empty());
}

/// A balanced stream enclosed in a group is balanced.
pub proof fn lemma_balanced_group(d: Delim, inner: Seq<TokV>)
    requires
        balanced(inner),
    ensures
        balanced(group(d, inner)),
{
    let o = seq![TokV::Open(d)];
    assert(o.drop_last() =~= Seq::<TokV>::empty());
    assert(open_groups(Seq::<TokV>::empty()) == Some(Seq::<Delim>::empty()));
    assert(open_groups(o) == Some(seq![d])) by {
        assert(Seq::<Delim>::empty().push(d) =~= seq![d]);
    }
    lemma_open_groups_append(o, inner);
    assert(seq![d] + Seq::<Delim>::empty() =~= seq![d]);
    let g = group(d, inner);
    assert(g.drop_last() =~= o + inner);
    assert(seq![d].drop_last() =~= Seq::<Delim>::empty());
}

/// A balanced stream followed by a token that is no delimiter is balanced.
pub proof fn lemma_balanced_push(s: Seq<TokV>, t: TokV)
    requires
        balanced(s),
        !is_delim(t),
    ensures
        balanced(s.push(t)),
{
    assert(s.push(t).drop_last() =~= s);
}

/// Appends copies of the tokens of `src` to `dst`.
fn copy_tokens(dst: &mut Vec<Tok>, src: &Vec<Tok>)
    ensures
        tok_values(final(dst)@) == tok_values(old(dst)@) + tok_values(src@),
{
    let n = src.len();
    let mut i: usize = 0;
    while i < n
        invariant
            n == src@.len(),
            i <= n,
            tok_values(dst@) == tok_values(old(dst)@) + tok_values(src@).subrange(0, i as int),
        decreases n - i,
    {
        let t = src[i].duplicate();
        let ghost before = dst@;
        dst.push(t);
        proof {
            assert(tok_values(dst@) =~= tok_values(before).push(t@));
            assert(tok_values(src@).subrange(0, i + 1) =~= tok_values(src@).subrange(0, i as int).push(
                src@[i as int]@,
            ));
        }
        i = i + 1;
    }
    assert(tok_values(src@).subrange(0, n as int) =~= tok_values(src@));
}

impl TokenStream {
    /// The stream is balanced at all times.
    #[verifier::type_invariant]
    spec fn wf(self) -> bool {
        balanced(self@)
    }

    /// The empty stream.
    pub fn new() -> (r: TokenStream)
        ensures
            r@ == Seq::<TokV>::empty(),
    {
        let r = TokenStream { toks: Vec::new() };
        assert(r@ =~= Seq::<TokV>::empty());
        r
    }

    /// A copy of the stream.
    pub fn clone_stream(&self) -> (r: TokenStream)
        ensures
            r@ == self@,
    {
        let mut r = TokenStream::new();
        r.append(self);
        r
    }

    /// The tokens of the stream, whose groups are balanced.
    pub fn tokens(&self) -> (r: &[Tok])
        ensures
            tok_values(r@) == self@,
            balanced(self@),
    {
        proof {
            use_type_invariant(self);
        }
        self.toks.as_slice()
    }

    /// Appends one token that is no delimiter.
    fn push(&mut self, t: Tok)
        requires
            !is_delim(t@),
        ensures
            final(self)@ == old(self)@.push(t@),
    {
        proof {
            use_type_invariant(&*self);
        }
        let mut toks: Vec<Tok> = Vec::new();
        std::mem::swap(&mut toks, &mut self.toks);
        toks.push(t);
        proof {
            assert(tok_values(toks@) =~= old(self)@.push(t@));
            lemma_balanced_push(old(self)@, t@);
        }
        self.toks = toks;
    }

    /// Appends an identifier or keyword.
    pub fn push_ident(&mut self, s: &str)
        ensures
            final(self)@ == old(self)@.push(ident(s@)),
    {
        self.push(Tok::Ident(String::from_str(s)));
    }

    /// Appends an identifier given as an [`Ident`].
    pub fn push_name(&mut self, n: &Ident)
        ensures
            final(self)@ == old(self)@.push(ident(n@)),
    {
        self.push(Tok::Ident(String::from_str(n.as_str())));
    }

    /// Appends an operator or separator.
    pub fn push_punct(&mut self, s: &str)
        ensures
            final(self)@ == old(self)@.push(punct(s@)),
    {
        self.push(Tok::Punct(String::from_str(s)));
    }

    /// Appends a `usize`-suffixed integer literal.
    pub fn push_suffixed(&mut self, n: usize)
        ensures
            final(self)@ == old(self)@.push(TokV::Suffixed(n)),
    {
        self.push(Tok::Suffixed(n));
    }

    /// Appends an unsuffixed integer literal.
    pub fn push_unsuffixed(&mut self, n: usize)
        ensures
            final(self)@ == old(self)@.push(TokV::Unsuffixed(n)),
    {
        self.push(Tok::Unsuffixed(n));
    }

    /// Appends the group of `inner` enclosed in the delimiters `d`.
    pub fn push_group(&mut self, d: Delim, inner: &TokenStream)
        ensures
            final(self)@ == old(self)@ + group(d, inner@),
    {
        proof {
            use_type_invariant(&*self);
            use_type_invariant(inner);
        }
        let mut toks: Vec<Tok> = Vec::new();
        std::mem::swap(&mut toks, &mut self.toks);
        toks.push(Tok::Open(d));
        proof {
            assert(tok_values(toks@) =~= old(self)@.push(TokV::Open(d)));
        }
        copy_tokens(&mut toks, &inner.toks);
        let ghost mid = tok_values(toks@);
        toks.push(Tok::Close(d));
        proof {
            assert(tok_values(toks@) =~= mid.push(TokV::Close(d)));
            assert(tok_values(toks@) =~= old(self)@ + group(d, inner@));
            lemma_balanced_group(d, inner@);
            lemma_balanced_append(old(self)@, group(d, inner@));
        }
        self.toks = toks;
    }

    /// Appends an interpolated expression.
    pub fn push_expr(&mut self, e: &Expr)
        ensures
            final(self)@ == old(self)@.push(TokV::Expr(e@)),
    {
        self.push(Tok::Expr(String::from_str(e.as_str())));
    }

    /// Appends all tokens of another stream.
    pub fn append(&mut self, other: &TokenStream)
        ensures
            final(self)@ == old(self)@ + other@,
    {
        proof {
            use_type_invariant(&*self);
            use_type_invariant(other);
        }
        let mut toks: Vec<Tok> = Vec::new();
        std::mem::swap(&mut toks, &mut self.toks);
        copy_tokens(&mut toks, &other.toks);
        proof {
            lemma_balanced_append(old(self)@, other@);
        }
        self.toks = toks;
    }

    /// Appends every stream of `v`, one after the other.
    pub fn append_all(&mut self, v: &Vec<TokenStream>)
        ensures
            final(self)@ == old(self)@ + concat_streams(v@),
    {
        let n = v.len();
        let mut i: usize = 0;
        proof {
            lemma_concat_streams_empty(v@.subrange(0, 0));
        }
        while i < n
            invariant
                n == v@.len(),
                i <= n,
                self@ == old(self)@ + concat_streams(v@.subrange(0, i as int)),
            decreases n - i,
        {
            self.append(&v[i]);
            proof {
                assert(v@.subrange(0, i + 1) =~= v@.subrange(0, i as int).push(v@[i as int]));
                lemma_concat_streams_push(v@.subrange(0, i as int), v@[i as int]);
            }
            i = i + 1;
        }
        assert(v@.subrange(0, n as int) =~= v@);
    }
}

} // verus!
