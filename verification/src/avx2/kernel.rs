//! Whole micro-kernels, each emitted from the nine arguments of a kernel
//! invocation.
pub mod alligned;
pub mod matmul;
pub mod triangle;
use vstd::prelude::*;
use crate::parse::{split_exprs, texts};
use crate::tokens::{Delim, Expr, TokV, TokenStream, group, ident, punct};

verus! {

/// The nine arguments of a kernel: the left operand, right operand and
/// target pointers, the dimensions `m`, `p`, `n`, and the row strides of the
/// three matrices.
pub struct KernelArgs {
    pub xptr: Expr,
    pub yptr: Expr,
    pub tptr: Expr,
    pub m: Expr,
    pub p: Expr,
    pub n: Expr,
    pub s_x: Expr,
    pub s_y: Expr,
    pub s_t: Expr,
}

/// The source texts of the nine arguments of a kernel.
pub struct KernelArgsV {
    pub xptr: Seq<char>,
    pub yptr: Seq<char>,
    pub tptr: Seq<char>,
    pub m: Seq<char>,
    pub p: Seq<char>,
    pub n: Seq<char>,
    pub s_x: Seq<char>,
    pub s_y: Seq<char>,
    pub s_t: Seq<char>,
}

impl View for KernelArgs {
    type V = KernelArgsV;

    open spec fn view(&self) -> KernelArgsV {
        KernelArgsV {
            xptr: self.xptr@,
            yptr: self.yptr@,
            tptr: self.tptr@,
            m: self.m@,
            p: self.p@,
            n: self.n@,
            s_x: self.s_x@,
            s_y: self.s_y@,
            s_t: self.s_t@,
        }
    }
}

/// The arguments taken, in order, from the first nine expressions of `list`.
pub open spec fn kernel_args_of(list: Seq<Seq<char>>) -> KernelArgsV {
    KernelArgsV {
        xptr: list[0],
        yptr: list[1],
        tptr: list[2],
        m: list[3],
        p: list[4],
        n: list[5],
        s_x: list[6],
        s_y: list[7],
        s_t: list[8],
    }
}

/// Why the arguments of a macro could not be read.
#[derive(Debug)]
pub enum ArgsError {
    /// The input is not a comma-separated list of expressions; `syn`'s message.
    Syntax(String),
    /// Too few expressions; the message names what is missing.
    Missing(String),
}

impl KernelArgs {
    /// The arguments from the first nine expressions of `exprs`, or, when
    /// there are fewer, the position of the first one missing.
    pub fn from_exprs(exprs: &Vec<String>) -> (r: Result<KernelArgs, usize>)
        ensures
            r is Ok <==> exprs@.len() >= 9,
            r matches Ok(a) ==> a@ == kernel_args_of(texts(exprs@)),
            r matches Err(i) ==> i == exprs@.len(),
    {
        if exprs.len() < 9 {
            return Err(exprs.len());
        }
        let a = KernelArgs {
            xptr: Expr::from_string(exprs[0].clone()),
            yptr: Expr::from_string(exprs[1].clone()),
            tptr: Expr::from_string(exprs[2].clone()),
            m: Expr::from_string(exprs[3].clone()),
            p: Expr::from_string(exprs[4].clone()),
            n: Expr::from_string(exprs[5].clone()),
            s_x: Expr::from_string(exprs[6].clone()),
            s_y: Expr::from_string(exprs[7].clone()),
            s_t: Expr::from_string(exprs[8].clone()),
        };
        assert(a@ =~= kernel_args_of(texts(exprs@)));
        Ok(a)
    }
}

/// The texts of what splitting the input gave: the expressions, or the
/// error message.
pub open spec fn split_view(split: Result<Vec<String>, String>) -> Result<Seq<Seq<char>>, Seq<char>> {
    match split {
        Ok(v) => Ok(texts(v@)),
        Err(e) => Err(e@),
    }
}

/// What reading kernel arguments from a split input gives when every
/// missing argument is reported as `missing`: the error of the split, the
/// `missing` message when fewer than nine expressions are given, or the
/// arguments.
pub open spec fn kernel_args_outcome(split: Result<Seq<Seq<char>>, Seq<char>>, missing: Seq<char>) -> Result<
    KernelArgsV,
    (bool, Seq<char>),
> {
    match split {
        Err(msg) => Err((true, msg)),
        Ok(list) => if list.len() < 9 {
            Err((false, missing))
        } else {
            Ok(kernel_args_of(list))
        },
    }
}

/// The view of a reading error: whether it is a syntax error, and its message.
pub open spec fn args_error_view(e: ArgsError) -> (bool, Seq<char>) {
    match e {
        ArgsError::Syntax(m) => (true, m@),
        ArgsError::Missing(m) => (false, m@),
    }
}

/// `r` is the reading that `outcome` describes.
pub open spec fn args_result(r: Result<KernelArgs, ArgsError>, outcome: Result<KernelArgsV, (bool, Seq<char>)>) -> bool {
    match outcome {
        Err(e) => r matches Err(f) && args_error_view(f) == e,
        Ok(a) => r matches Ok(b) && b@ == a,
    }
}

/// `r` is what emitting `want` after the reading `outcome` gives: the
/// tokens `want(a)` for the arguments `a` read, or the reading error
/// unchanged.
pub open spec fn kernel_emitted(
    r: Result<TokenStream, ArgsError>,
    outcome: Result<KernelArgsV, (bool, Seq<char>)>,
    want: spec_fn(KernelArgsV) -> Seq<TokV>,
) -> bool {
    match outcome {
        Err(e) => r matches Err(f) && args_error_view(f) == e,
        Ok(a) => r matches Ok(ts) && ts@ == want(a),
    }
}

/// The nine kernel arguments from a split input: its error as a syntax
/// error, "variable not found" when fewer than nine expressions were found,
/// or the first nine expressions.
pub fn kernel_args_from_split(split: Result<Vec<String>, String>) -> (r: Result<KernelArgs, ArgsError>)
    ensures
        args_result(r, kernel_args_outcome(split_view(split), "variable not found"@)),
{
    match split {
        Err(msg) => Err(ArgsError::Syntax(msg)),
        Ok(list) => match KernelArgs::from_exprs(&list) {
            Err(_) => Err(ArgsError::Missing(String::from_str("variable not found"))),
            Ok(a) => Ok(a),
        },
    }
}

/// Reads the nine kernel arguments from `input`, split by `syn`; too few are
/// reported as "variable not found".
pub fn parse_kernel_args(input: &str) -> (r: Result<KernelArgs, ArgsError>)
    ensures
        r matches Err(ArgsError::Missing(m)) ==> m@ == "variable not found"@,
{
    kernel_args_from_split(split_exprs(input))
}

/// `unsafe { #body }`
pub open spec fn unsafe_block(body: Seq<TokV>) -> Seq<TokV> {
    seq![ident("unsafe"@)] + group(Delim::Brace, body)
}

/// `for _ in #range { #body }`
pub open spec fn for_each(range: Seq<TokV>, body: Seq<TokV>) -> Seq<TokV> {
    seq![ident("for"@), ident("_"@), ident("in"@)] + range + group(Delim::Brace, body)
}

/// `#lo..#p / #k`
pub open spec fn steps_range(lo: TokV, p: Seq<char>, k: usize) -> Seq<TokV> {
    seq![lo, punct(".."@), TokV::Expr(p), punct("/"@), TokV::Suffixed(k)]
}

/// `unsafe { #body }`
pub fn emit_unsafe_block(body: &TokenStream) -> (r: TokenStream)
    ensures
        r@ == unsafe_block(body@),
{
    let mut out = TokenStream::new();
    out.push_ident("unsafe");
    let mut grp = TokenStream::new();
    grp.append(body);
    out.push_group(Delim::Brace, &grp);
    out
}

/// Appends `for _ in #range { #body }`.
pub fn push_for_each(out: &mut TokenStream, range: &TokenStream, body: &TokenStream)
    ensures
        final(out)@ == old(out)@ + for_each(range@, body@),
{
    out.push_ident("for");
    out.push_ident("_");
    out.push_ident("in");
    out.append(range);
    let mut grp = TokenStream::new();
    grp.append(body);
    out.push_group(Delim::Brace, &grp);
}

} // verus!
