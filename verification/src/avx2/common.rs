//! The first generation of emitters, which address rows as `ptr.add(i * stride)`.
use vstd::prelude::*;
use crate::avx2::emitters::{
    Instr, Vars, add_call, call_toks, fma_macro_toks, grid, init_var_toks, lemma_grid_empty,
    lemma_grid_push, names, numbered_names, store_toks,
};
use crate::tokens::{
    Expr, TokV, TokenStream, ident, lemma_concat_streams_push, punct, stream_values,
};

verus! {

/// `#idx * #stride`
pub open spec fn stride_offset(idx: usize, stride: Seq<char>) -> Seq<TokV> {
    seq![TokV::Suffixed(idx), punct("*"@), TokV::Expr(stride)]
}

/// The accumulator names `r0`, `r1`, ..., one per row below `m`.
pub fn name_tvecs(m: usize) -> (r: Vars)
    ensures
        r@.len() == m,
        names(r@) == numbered_names("r"@, m as nat),
{
    crate::avx2::emitters::name_range("r", m)
}

/// The operand names `b0`, `b1`, ..., one per operand below `k`.
pub fn name_yvecs(k: usize) -> (r: Vars)
    ensures
        r@.len() == k,
        names(r@) == numbered_names("b"@, k as nat),
{
    crate::avx2::emitters::name_range("b", k)
}

/// Appends `#idx * #stride`.
fn push_stride_offset(out: &mut TokenStream, idx: usize, stride: &Expr)
    ensures
        final(out)@ == old(out)@ + stride_offset(idx, stride@),
{
    out.push_suffixed(idx);
    out.push_punct("*");
    out.push_expr(stride);
}

/// `#ptr.add(#idx * #stride)`
fn row_addr(ptr: &Expr, stride: &Expr, idx: usize) -> (r: TokenStream)
    ensures
        r@ == add_call(ptr@, stride_offset(idx, stride@)),
{
    let mut args = TokenStream::new();
    push_stride_offset(&mut args, idx, stride);
    let mut out = TokenStream::new();
    out.push_expr(ptr);
    out.push_punct(".");
    out.push_ident("add");
    let mut grp = TokenStream::new();
    grp.append(&args);
    out.push_group(crate::tokens::Delim::Paren, &grp);
    out
}

/// The loads of `load_tvecs`.
pub open spec fn load_tvecs_toks(tids: Seq<Seq<char>>, tptr: Seq<char>, s_t: Seq<char>) -> Seq<
    Seq<TokV>,
> {
    Seq::new(
        tids.len(),
        |idx: int|
            init_var_toks(
                tids[idx],
                call_toks("_mm256_loadu_ps"@, add_call(tptr, stride_offset(idx as usize, s_t))),
            ),
    )
}

/// `let mut #acc = _mm256_loadu_ps(#tptr.add(#idx * #s_t));` for each
/// accumulator `tids[idx]` (`m` is not used).
pub fn load_tvecs(tids: &Vars, tptr: &Expr, s_t: &Expr, m: usize) -> (r: Instr)
    ensures
        stream_values(r@) == load_tvecs_toks(names(tids@), tptr@, s_t@),
{
    let ghost want = load_tvecs_toks(names(tids@), tptr@, s_t@);
    let mut out: Instr = Vec::new();
    let mut idx: usize = 0;
    while idx < tids.len()
        invariant
            idx <= tids@.len(),
            want == load_tvecs_toks(names(tids@), tptr@, s_t@),
            stream_values(out@) == want.subrange(0, idx as int),
        decreases tids@.len() - idx,
    {
        let addr = row_addr(tptr, s_t, idx);
        let mut load = TokenStream::new();
        load.push_ident("_mm256_loadu_ps");
        let mut grp = TokenStream::new();
        grp.append(&addr);
        load.push_group(crate::tokens::Delim::Paren, &grp);
        let st = crate::avx2::emitters::init_var(&tids[idx], &load);
        assert(st@ == want[idx as int]);
        proof {
            lemma_concat_streams_push(out@, st);
        }
        out.push(st);
        assert(want.subrange(0, idx + 1) =~= want.subrange(0, idx as int).push(st@));
        idx = idx + 1;
    }
    assert(want.subrange(0, idx as int) =~= want);
    out
}

/// `#yptr + #bdx * #s_y`
pub open spec fn offset_toks(yptr: Seq<char>, bdx: usize, s_y: Seq<char>) -> Seq<TokV> {
    seq![TokV::Expr(yptr), punct("+"@)] + stride_offset(bdx, s_y)
}

/// The loads of `load_yvecs`.
pub open spec fn load_yvecs_toks(yids: Seq<Seq<char>>, yptr: Seq<char>, s_y: Seq<char>) -> Seq<
    Seq<TokV>,
> {
    Seq::new(
        yids.len(),
        |bdx: int|
            seq![ident("let"@), ident(yids[bdx]), punct("="@)] + call_toks(
                "_mm256_loadu_ps"@,
                offset_toks(yptr, bdx as usize, s_y),
            ) + seq![punct(";"@)],
    )
}

/// `let #b = _mm256_loadu_ps(#yptr + #bdx * #s_y);` for each operand
/// `yids[bdx]` (`k` is not used).
pub fn load_yvecs(yids: &Vars, yptr: &Expr, s_y: &Expr, k: usize) -> (r: Instr)
    ensures
        stream_values(r@) == load_yvecs_toks(names(yids@), yptr@, s_y@),
{
    let ghost want = load_yvecs_toks(names(yids@), yptr@, s_y@);
    let mut out: Instr = Vec::new();
    let mut bdx: usize = 0;
    while bdx < yids.len()
        invariant
            bdx <= yids@.len(),
            want == load_yvecs_toks(names(yids@), yptr@, s_y@),
            stream_values(out@) == want.subrange(0, bdx as int),
        decreases yids@.len() - bdx,
    {
        let mut st = TokenStream::new();
        st.push_ident("let");
        st.push_name(&yids[bdx]);
        st.push_punct("=");
        st.push_ident("_mm256_loadu_ps");
        let mut grp = TokenStream::new();
        grp.push_expr(yptr);
        grp.push_punct("+");
        push_stride_offset(&mut grp, bdx, s_y);
        st.push_group(crate::tokens::Delim::Paren, &grp);
        st.push_punct(";");
        assert(st@ == want[bdx as int]);
        proof {
            lemma_concat_streams_push(out@, st);
        }
        out.push(st);
        assert(want.subrange(0, bdx + 1) =~= want.subrange(0, bdx as int).push(st@));
        bdx = bdx + 1;
    }
    assert(want.subrange(0, bdx as int) =~= want);
    out
}

/// The stores of `write_outcome`.
pub open spec fn write_outcome_toks(tids: Seq<Seq<char>>, tptr: Seq<char>, s_t: Seq<char>) -> Seq<
    Seq<TokV>,
> {
    Seq::new(
        tids.len(),
        |idx: int| store_toks(add_call(tptr, stride_offset(idx as usize, s_t)), tids[idx]),
    )
}

/// `_mm256_storeu_ps(#tptr.add(#idx * #s_t), #acc);` for each accumulator
/// `tids[idx]` (`m` is not used).
pub fn write_outcome(tids: &Vars, tptr: &Expr, s_t: &Expr, m: usize) -> (r: Instr)
    ensures
        stream_values(r@) == write_outcome_toks(names(tids@), tptr@, s_t@),
{
    let ghost want = write_outcome_toks(names(tids@), tptr@, s_t@);
    let mut out: Instr = Vec::new();
    let mut idx: usize = 0;
    while idx < tids.len()
        invariant
            idx <= tids@.len(),
            want == write_outcome_toks(names(tids@), tptr@, s_t@),
            stream_values(out@) == want.subrange(0, idx as int),
        decreases tids@.len() - idx,
    {
        let addr = row_addr(tptr, s_t, idx);
        let mut st = TokenStream::new();
        st.push_ident("_mm256_storeu_ps");
        let mut grp = TokenStream::new();
        grp.append(&addr);
        grp.push_punct(",");
        grp.push_name(&tids[idx]);
        st.push_group(crate::tokens::Delim::Paren, &grp);
        st.push_punct(";");
        assert(st@ == want[idx as int]);
        proof {
            lemma_concat_streams_push(out@, st);
        }
        out.push(st);
        assert(want.subrange(0, idx + 1) =~= want.subrange(0, idx as int).push(st@));
        idx = idx + 1;
    }
    assert(want.subrange(0, idx as int) =~= want);
    out
}

/// The product step of `fma_product` for accumulator `idx` and operand `bdx`.
pub open spec fn fma_product_elem(
    tids: Seq<Seq<char>>,
    yids: Seq<Seq<char>>,
    xptr: Seq<char>,
    s_x: Seq<char>,
    bdx: int,
    idx: int,
) -> Seq<TokV> {
    fma_macro_toks(
        tids[idx],
        add_call(xptr, stride_offset(idx as usize, s_x) + seq![punct("+"@), TokV::Suffixed(bdx as usize)]),
        seq![ident(yids[bdx])],
    )
}

/// For each operand `yids[bdx]` and accumulator `tids[idx]`:
/// `fma_accum!(#acc, #xptr.add(#idx * #s_x + #bdx), #b);` (`m` and `k` are
/// not used).
pub fn fma_product(tids: &Vars, yids: &Vars, xptr: &Expr, s_x: &Expr, m: usize, k: usize) -> (r:
    Instr)
    ensures
        stream_values(r@) == grid(
            yids@.len(),
            tids@.len(),
            |bdx: int, idx: int| fma_product_elem(names(tids@), names(yids@), xptr@, s_x@, bdx, idx),
        ),
{
    let ghost f = |bdx: int, idx: int| fma_product_elem(names(tids@), names(yids@), xptr@, s_x@, bdx, idx);
    let mut out: Instr = Vec::new();
    let n = tids.len();
    let rows = yids.len();
    proof {
        lemma_grid_empty(n as nat, f);
    }
    let mut bdx: usize = 0;
    while bdx < rows
        invariant
            rows == yids@.len(),
            n == tids@.len(),
            bdx <= rows,
            f == (|b: int, i: int| fma_product_elem(names(tids@), names(yids@), xptr@, s_x@, b, i)),
            stream_values(out@) == grid(bdx as nat, n as nat, f),
        decreases rows - bdx,
    {
        let mut idx: usize = 0;
        while idx < n
            invariant
                rows == yids@.len(),
                n == tids@.len(),
                bdx < rows,
                idx <= n,
                f == (|b: int, i: int| fma_product_elem(names(tids@), names(yids@), xptr@, s_x@, b, i)),
                stream_values(out@) == grid(bdx as nat, n as nat, f) + Seq::new(
                    idx as nat,
                    |c: int| f(bdx as int, c),
                ),
            decreases n - idx,
        {
            let mut args = TokenStream::new();
            push_stride_offset(&mut args, idx, s_x);
            args.push_punct("+");
            args.push_suffixed(bdx);
            let mut addr = TokenStream::new();
            addr.push_expr(xptr);
            addr.push_punct(".");
            addr.push_ident("add");
            let mut grp = TokenStream::new();
            grp.append(&args);
            addr.push_group(crate::tokens::Delim::Paren, &grp);
            let mut st = TokenStream::new();
            st.push_ident("fma_accum");
            st.push_punct("!");
            let mut grp = TokenStream::new();
            grp.push_name(&tids[idx]);
            grp.push_punct(",");
            grp.append(&addr);
            grp.push_punct(",");
            grp.push_name(&yids[bdx]);
            st.push_group(crate::tokens::Delim::Paren, &grp);
            st.push_punct(";");
            assert(st@ == f(bdx as int, idx as int));
            proof {
                lemma_concat_streams_push(out@, st);
                assert(Seq::new((idx + 1) as nat, |c: int| f(bdx as int, c)) =~= Seq::new(
                    idx as nat,
                    |c: int| f(bdx as int, c),
                ).push(st@));
            }
            out.push(st);
            idx = idx + 1;
        }
        proof {
            lemma_grid_push(bdx as nat, n as nat, f);
        }
        bdx = bdx + 1;
    }
    out
}

} // verus!
