//! Emitters for AVX2 (eight `f32` lanes per vector), and the packing of a
//! line of data into a contiguous buffer.
pub mod common;
pub mod emitters;
pub mod kernel;
pub mod properties;
use vstd::prelude::*;
use crate::avx2::emitters::{add_call, call_toks};
use crate::avx2::kernel::{ArgsError, args_error_view, split_view};
use crate::parse::split_exprs;
use crate::tokens::{
    Delim, Expr, TokV, TokenStream, group, ident, lemma_concat_streams_push, punct, stream_values,
};

verus! {

/// Lanes of an AVX2 vector of `f32`.
pub const AVX2_SIMD_WIDTH: usize = 8;

/// Elements packed per line.
pub const BLOCK_WIDTH: usize = 4;

/// The offsets `o, o + AVX2_SIMD_WIDTH, ...` below `BLOCK_WIDTH`.
pub open spec fn line_offsets(o: nat) -> Seq<nat>
    decreases BLOCK_WIDTH + AVX2_SIMD_WIDTH - o,
{
    if o >= BLOCK_WIDTH {
        seq![]
    } else {
        seq![o] + line_offsets((o + AVX2_SIMD_WIDTH) as nat)
    }
}

/// The packing arguments: the target `bptr`, the source `dptr` and, for a
/// partial line, the number of valid `source` elements.
pub struct PackArgs {
    pub bptr: Expr,
    pub dptr: Expr,
    pub source: Option<Expr>,
}

/// The text of an optional expression.
pub open spec fn source_view(s: Option<Expr>) -> Option<Seq<char>> {
    match s {
        Some(e) => Some(e@),
        None => None,
    }
}

/// The message for a missing packing argument `i`.
pub open spec fn pack_missing(i: nat) -> Seq<char> {
    if i == 0 {
        "failed to parse bptr"@
    } else if i == 1 {
        "failed to parse dptr"@
    } else {
        "failed to parse source"@
    }
}

fn pack_missing_message(i: usize) -> (r: &'static str)
    ensures
        r@ == pack_missing(i as nat),
{
    if i == 0 {
        "failed to parse bptr"
    } else if i == 1 {
        "failed to parse dptr"
    } else {
        "failed to parse source"
    }
}

/// What reading `needed` packing arguments from a split input gives: the
/// error of the split, the first missing argument, or the expressions.
pub open spec fn pack_args_outcome(split: Result<Seq<Seq<char>>, Seq<char>>, needed: nat) -> Result<
    Seq<Seq<char>>,
    (bool, Seq<char>),
> {
    match split {
        Err(msg) => Err((true, msg)),
        Ok(list) => if list.len() < needed {
            Err((false, pack_missing(list.len())))
        } else {
            Ok(list)
        },
    }
}

/// The packing arguments from a split input: `bptr` and `dptr`, and
/// `source` when `with_source`.
pub fn pack_args_from_split(split: Result<Vec<String>, String>, with_source: bool) -> (r: Result<
    PackArgs,
    ArgsError,
>)
    ensures
        match pack_args_outcome(split_view(split), if with_source { 3 } else { 2 }) {
            Err(e) => r matches Err(f) && args_error_view(f) == e,
            Ok(list) => r matches Ok(a) && a.bptr@ == list[0] && a.dptr@ == list[1] && (if with_source {
                a.source matches Some(s) && s@ == list[2]
            } else {
                a.source is None
            }),
        },
{
    let needed: usize = if with_source {
        3
    } else {
        2
    };
    match split {
        Err(msg) => Err(ArgsError::Syntax(msg)),
        Ok(list) => {
            if list.len() < needed {
                return Err(ArgsError::Missing(String::from_str(pack_missing_message(list.len()))));
            }
            let source = if with_source {
                Some(Expr::from_string(list[2].clone()))
            } else {
                None
            };
            Ok(
                PackArgs {
                    bptr: Expr::from_string(list[0].clone()),
                    dptr: Expr::from_string(list[1].clone()),
                    source,
                },
            )
        },
    }
}

/// A message that names a missing packing argument.
pub open spec fn is_pack_missing(m: Seq<char>) -> bool {
    exists|i: nat| i < 3 && m == #[trigger] pack_missing(i)
}

/// What packing from raw input can give, whatever `syn` made of the input:
/// the statements `want(list)` for some expressions `list`, a syntax error,
/// or a missing-argument error.
pub open spec fn pack_result(
    r: Result<TokenStream, ArgsError>,
    want: spec_fn(Seq<Seq<char>>) -> Seq<TokV>,
) -> bool {
    match r {
        Ok(ts) => exists|list: Seq<Seq<char>>| #[trigger] want(list) == ts@,
        Err(ArgsError::Missing(m)) => is_pack_missing(m@),
        Err(ArgsError::Syntax(_)) => true,
    }
}

/// The statements for packing arguments read as `list`.
pub open spec fn pack_list_toks(list: Seq<Seq<char>>, with_source: bool) -> Seq<TokV> {
    pack_toks(list[0], list[1], if with_source { Some(list[2]) } else { None }, line_offsets(0)).flatten()
}

/// The packing statements for the arguments read from a split input (a
/// partial line, reading `source` too, when `with_source`), or the reading
/// error unchanged.
pub fn pack_simd_line_from_split(split: Result<Vec<String>, String>, with_source: bool) -> (r: Result<
    TokenStream,
    ArgsError,
>)
    ensures
        match pack_args_outcome(split_view(split), if with_source { 3 } else { 2 }) {
            Err(e) => r matches Err(f) && args_error_view(f) == e,
            Ok(list) => r matches Ok(ts) && ts@ == pack_list_toks(list, with_source),
        },
{
    match pack_args_from_split(split, with_source) {
        Err(e) => Err(e),
        Ok(a) => Ok(emit_pack(&a)),
    }
}

/// Splits `input` with `syn`, reads the packing arguments and emits the
/// statements.
fn pack_from_input(input: &str, with_source: bool) -> (r: Result<TokenStream, ArgsError>)
    ensures
        pack_result(r, |list: Seq<Seq<char>>| pack_list_toks(list, with_source)),
{
    let split = split_exprs(input);
    let ghost sv = split_view(split);
    let r = pack_simd_line_from_split(split, with_source);
    proof {
        if let Ok(list) = sv {
            assert(pack_missing(list.len()) == pack_missing(list.len()));
            if r is Ok {
                assert((|list: Seq<Seq<char>>| pack_list_toks(list, with_source))(list) == r->Ok_0@);
            }
        }
    }
    r
}

/// `_mm256_storeu_ps(#bptr.add(#o), _mm256_loadu_ps(#dptr.add(#o)));`
pub open spec fn pack_line_toks(bptr: Seq<char>, dptr: Seq<char>, o: nat) -> Seq<TokV> {
    call_toks(
        "_mm256_storeu_ps"@,
        add_call(bptr, seq![TokV::Suffixed(o as usize)]) + seq![punct(","@)] + call_toks(
            "_mm256_loadu_ps"@,
            add_call(dptr, seq![TokV::Suffixed(o as usize)]),
        ),
    ) + seq![punct(";"@)]
}

/// `_mm256_loadu_si256(MASK[#source.saturating_sub(#o).min(8)].as_ptr() as *const __m256i)`
pub open spec fn pack_mask_toks(source: Seq<char>, o: nat) -> Seq<TokV> {
    call_toks(
        "_mm256_loadu_si256"@,
        seq![ident("MASK"@)] + group(
            Delim::Bracket,
            seq![TokV::Expr(source), punct("."@), ident("saturating_sub"@)] + group(
                Delim::Paren,
                seq![TokV::Suffixed(o as usize)],
            ) + seq![punct("."@), ident("min"@)] + group(
                Delim::Paren,
                seq![TokV::Unsuffixed(8)],
            ),
        ) + seq![punct("."@), ident("as_ptr"@)] + group(Delim::Paren, Seq::<TokV>::empty())
            + seq![ident("as"@), punct("*"@), ident("const"@), ident("__m256i"@)],
    )
}

/// `_mm256_storeu_ps(#bptr.add(#o), _mm256_maskload_ps(#dptr.add(#o), <mask of source - o lanes>));`
pub open spec fn pack_uline_toks(bptr: Seq<char>, dptr: Seq<char>, source: Seq<char>, o: nat) -> Seq<
    TokV,
> {
    call_toks(
        "_mm256_storeu_ps"@,
        add_call(bptr, seq![TokV::Suffixed(o as usize)]) + seq![punct(","@)] + call_toks(
            "_mm256_maskload_ps"@,
            add_call(dptr, seq![TokV::Suffixed(o as usize)]) + seq![punct(","@)] + pack_mask_toks(
                source,
                o,
            ),
        ),
    ) + seq![punct(";"@)]
}

/// The line statement at offset `o`: a full copy, or with `source` a copy
/// of the first `source - o` lanes.
pub open spec fn pack_stmt(bptr: Seq<char>, dptr: Seq<char>, source: Option<Seq<char>>, o: nat) -> Seq<
    TokV,
> {
    match source {
        None => pack_line_toks(bptr, dptr, o),
        Some(s) => pack_uline_toks(bptr, dptr, s, o),
    }
}

/// The packing statements for the offsets `os`.
pub open spec fn pack_toks(
    bptr: Seq<char>,
    dptr: Seq<char>,
    source: Option<Seq<char>>,
    os: Seq<nat>,
) -> Seq<Seq<TokV>> {
    os.map_values(|o: nat| pack_stmt(bptr, dptr, source, o))
}

/// Appends `#ptr.add(#o)`.
fn push_add_offset(out: &mut TokenStream, ptr: &Expr, o: usize)
    ensures
        final(out)@ == old(out)@ + add_call(ptr@, seq![TokV::Suffixed(o)]),
{
    out.push_expr(ptr);
    out.push_punct(".");
    out.push_ident("add");
    let mut grp = TokenStream::new();
    grp.push_suffixed(o);
    out.push_group(Delim::Paren, &grp);
}

/// The mask of the valid lanes of the vector at offset `o`.
fn emit_pack_mask(source: &Expr, o: usize) -> (r: TokenStream)
    ensures
        r@ == pack_mask_toks(source@, o as nat),
{
    let mut index = TokenStream::new();
    index.push_expr(source);
    index.push_punct(".");
    index.push_ident("saturating_sub");
    let mut grp = TokenStream::new();
    grp.push_suffixed(o);
    index.push_group(Delim::Paren, &grp);
    index.push_punct(".");
    index.push_ident("min");
    let mut grp = TokenStream::new();
    grp.push_unsuffixed(8);
    index.push_group(Delim::Paren, &grp);
    let mut args = TokenStream::new();
    args.push_ident("MASK");
    let mut grp = TokenStream::new();
    grp.append(&index);
    args.push_group(Delim::Bracket, &grp);
    args.push_punct(".");
    args.push_ident("as_ptr");
    let mut grp = TokenStream::new();
    args.push_group(Delim::Paren, &grp);
    args.push_ident("as");
    args.push_punct("*");
    args.push_ident("const");
    args.push_ident("__m256i");
    let mut out = TokenStream::new();
    out.push_ident("_mm256_loadu_si256");
    let mut grp = TokenStream::new();
    grp.append(&args);
    out.push_group(Delim::Paren, &grp);
    out
}

/// The load of the vector at offset `o`: full, or under the mask of the
/// valid lanes when `source` is given.
fn emit_pack_load(dptr: &Expr, source: &Option<Expr>, o: usize) -> (r: TokenStream)
    ensures
        r@ == match source_view(*source) {
            None => call_toks("_mm256_loadu_ps"@, add_call(dptr@, seq![TokV::Suffixed(o)])),
            Some(s) => call_toks(
                "_mm256_maskload_ps"@,
                add_call(dptr@, seq![TokV::Suffixed(o)]) + seq![punct(","@)] + pack_mask_toks(
                    s,
                    o as nat,
                ),
            ),
        },
{
    let mut args = TokenStream::new();
    push_add_offset(&mut args, dptr, o);
    let mut out = TokenStream::new();
    match source {
        None => {
            out.push_ident("_mm256_loadu_ps");
        },
        Some(src) => {
            args.push_punct(",");
            args.append(&emit_pack_mask(src, o));
            out.push_ident("_mm256_maskload_ps");
        },
    }
    let mut grp = TokenStream::new();
    grp.append(&args);
    out.push_group(Delim::Paren, &grp);
    out
}

/// The packing statement at offset `o`.
fn emit_pack_stmt(a: &PackArgs, o: usize) -> (r: TokenStream)
    ensures
        r@ == pack_stmt(a.bptr@, a.dptr@, source_view(a.source), o as nat),
{
    let inner = emit_pack_load(&a.dptr, &a.source, o);
    let mut out = TokenStream::new();
    out.push_ident("_mm256_storeu_ps");
    let mut grp = TokenStream::new();
    push_add_offset(&mut grp, &a.bptr, o);
    grp.push_punct(",");
    grp.append(&inner);
    out.push_group(Delim::Paren, &grp);
    out.push_punct(";");
    out
}

/// The packing statements, one per vector of the line.
pub fn emit_pack(a: &PackArgs) -> (r: TokenStream)
    ensures
        r@ == pack_toks(
            a.bptr@,
            a.dptr@,
            source_view(a.source),
            line_offsets(0),
        ).flatten(),
{
    let ghost src = source_view(a.source);
    let ghost want = pack_toks(a.bptr@, a.dptr@, src, line_offsets(0));
    let mut tokens: Vec<TokenStream> = Vec::new();
    let mut o: usize = 0;
    assert(stream_values(tokens@) =~= Seq::<Seq<TokV>>::empty());
    while o < BLOCK_WIDTH
        invariant
            o < BLOCK_WIDTH + AVX2_SIMD_WIDTH,
            want == pack_toks(a.bptr@, a.dptr@, src, line_offsets(0)),
            src == source_view(a.source),
            stream_values(tokens@) + pack_toks(a.bptr@, a.dptr@, src, line_offsets(o as nat)) == want,
        decreases BLOCK_WIDTH + AVX2_SIMD_WIDTH - o,
    {
        let st = emit_pack_stmt(a, o);
        proof {
            lemma_concat_streams_push(tokens@, st);
            let rest = line_offsets((o + AVX2_SIMD_WIDTH) as nat);
            assert(line_offsets(o as nat) == seq![o as nat] + rest);
            assert(pack_toks(a.bptr@, a.dptr@, src, line_offsets(o as nat)) =~= seq![st@] + pack_toks(
                a.bptr@,
                a.dptr@,
                src,
                rest,
            ));
            assert(stream_values(tokens@).push(st@) + pack_toks(a.bptr@, a.dptr@, src, rest)
                =~= stream_values(tokens@) + pack_toks(a.bptr@, a.dptr@, src, line_offsets(o as nat)));
        }
        tokens.push(st);
        o = o + AVX2_SIMD_WIDTH;
    }
    assert(line_offsets(o as nat) =~= Seq::<nat>::empty());
    assert(pack_toks(a.bptr@, a.dptr@, src, line_offsets(o as nat)) =~= Seq::<Seq<TokV>>::empty());
    assert(stream_values(tokens@) =~= want);
    let mut out = TokenStream::new();
    out.append_all(&tokens);
    out
}

/// Copies a line of `BLOCK_WIDTH` elements from `dptr` to `bptr`, one
/// vector at a time (`#(#tokens)*` of full-vector copies).
pub fn pack_simd_line_alligned(input: &str) -> (r: Result<TokenStream, ArgsError>)
    ensures
        pack_result(r, |list: Seq<Seq<char>>| pack_list_toks(list, false)),
{
    pack_from_input(input, false)
}

/// Copies a partial line, of which `source` elements are valid, from `dptr`
/// to `bptr`: each vector is loaded under the mask of its valid lanes.
pub fn pack_simd_line_unalligned(input: &str) -> (r: Result<TokenStream, ArgsError>)
    ensures
        pack_result(r, |list: Seq<Seq<char>>| pack_list_toks(list, true)),
{
    pack_from_input(input, true)
}

} // verus!
