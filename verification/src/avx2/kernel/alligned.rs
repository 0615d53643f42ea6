//! A kernel for an aligned eight-row panel that reorders its statements to
//! spread dependent operations apart.
use vstd::prelude::*;
use crate::avx2::common::{fma_product, fma_product_elem, name_tvecs, name_yvecs, write_outcome};
use crate::avx2::emitters::{
    grid, load_vecs, load_vecs_toks, mfma_product, mload_vecs, mload_vecs_toks, mwrite_outcome,
    mwrite_outcome_toks, name, names, numbered_names, product_toks,
};
use crate::avx2::kernel::{
    ArgsError, KernelArgs, KernelArgsV, emit_unsafe_block, for_each, kernel_args_from_split,
    kernel_args_outcome, kernel_emitted, push_for_each, split_view, unsafe_block,
};
use crate::avx2::kernel::matmul::{
    emit_mask_init, is_variable_not_found, kernel_result, lemma_kernel_emitted_result, mask_init,
    zero_to,
};
use crate::parse::split_exprs;
use crate::instructs::perms::{
    blockwise, interleave_order, interleave_partitions, lemma_blockwise_map,
    lemma_interleave_order_is_permutation, lemma_permute_map, lemma_riffle_order_is_permutation,
    permute, riffle, riffle_order, riffle_partitions,
};
use crate::tokens::{TokV, TokenStream, stream_values};

verus! {

/// Accumulator rows of the panel.
pub const M: usize = 8;

/// Operand rows per step.
pub const B: usize = 2;

/// The product steps of the kernel before reordering.
pub open spec fn kernel_products(a: KernelArgsV, i: usize, k: usize) -> Seq<Seq<TokV>> {
    grid(
        k as nat,
        i as nat,
        |bdx: int, idx: int|
            fma_product_elem(
                numbered_names("r"@, i as nat),
                numbered_names("b"@, k as nat),
                a.xptr,
                a.s_x,
                bdx,
                idx,
            ),
    )
}

/// The kernel emitted for `i` accumulators and `k` operands per step: the
/// accumulator loads riffled, `p` steps of operand loads followed by the
/// products riffled and then interleaved within each operand's block, and
/// the stores riffled.
pub open spec fn mult_kernel_toks(a: KernelArgsV, i: usize, k: usize) -> Seq<TokV> {
    let tids = numbered_names("r"@, i as nat);
    let yids = numbered_names("b"@, k as nat);
    unsafe_block(
        permute(load_vecs_toks(tids, a.tptr, a.s_t), riffle_order(i as nat)).flatten() + for_each(
            zero_to(a.p),
            load_vecs_toks(yids, a.yptr, a.s_y).flatten() + blockwise(
                blockwise(kernel_products(a, i, k), k as nat, i as nat, riffle_order(i as nat)),
                k as nat,
                i as nat,
                interleave_order(i as nat),
            ).flatten(),
        ) + permute(
            crate::avx2::common::write_outcome_toks(tids, a.tptr, a.s_t),
            riffle_order(i as nat),
        ).flatten(),
    )
}

/// The reordered kernel for `i` accumulators and `k` operands per step.
pub fn emit_mult_kernel(a: &KernelArgs, i: usize, k: usize) -> (r: TokenStream)
    requires
        1 <= i <= 65,
        1 <= k,
        i * k <= usize::MAX,
    ensures
        r@ == mult_kernel_toks(a@, i, k),
{
    let tids = name_tvecs(i);
    let yids = name_yvecs(k);
    let mut tvecs = load_vecs(&tids, &a.tptr, &a.s_t, i);
    let yvecs = load_vecs(&yids, &a.yptr, &a.s_y, k);
    let mut prod = fma_product(&tids, &yids, &a.xptr, &a.s_x, i, k);
    let mut save = write_outcome(&tids, &a.tptr, &a.s_t, i);
    let ghost f = |t: TokenStream| t@;
    let ghost prod0 = prod@;
    assert(tvecs@.len() == i) by {
        assert(stream_values(tvecs@).len() == tvecs@.len());
        assert(names(tids@).len() == tids@.len());
    }
    assert(save@.len() == i) by {
        assert(stream_values(save@).len() == save@.len());
        assert(names(tids@).len() == tids@.len());
    }
    proof {
        lemma_riffle_order_is_permutation(i as nat);
        lemma_interleave_order_is_permutation(i as nat);
        lemma_permute_map(tvecs@, riffle_order(i as nat), f);
        lemma_permute_map(save@, riffle_order(i as nat), f);
        crate::avx2::emitters::lemma_grid_len(k as nat, i as nat, |bdx: int, idx: int|
            fma_product_elem(names(tids@), names(yids@), a.xptr@, a.s_x@, bdx, idx));
        assert(prod@.len() == k * i);
        assert(k * i == i * k) by (nonlinear_arith);
        assert(((i * k) as nat) / (k as nat) == i) by (nonlinear_arith)
            requires
                k >= 1,
        ;
        assert(k <= i * k) by (nonlinear_arith)
            requires
                i >= 1,
        ;
        lemma_blockwise_map(prod0, k as nat, i as nat, riffle_order(i as nat), f);
        assert((|bdx: int, idx: int|
            fma_product_elem(names(tids@), names(yids@), a.xptr@, a.s_x@, bdx, idx)) =~= (|bdx: int, idx: int|
            fma_product_elem(
                numbered_names("r"@, i as nat),
                numbered_names("b"@, k as nat),
                a@.xptr,
                a@.s_x,
                bdx,
                idx,
            )));
        assert(stream_values(prod0) == kernel_products(a@, i, k));
    }
    riffle(&mut tvecs);
    riffle_partitions(&mut prod, k);
    let ghost prod1 = prod@;
    proof {
        crate::instructs::perms::lemma_blockwise_len(prod0, k as nat, i as nat, riffle_order(i as nat));
        lemma_blockwise_map(prod1, k as nat, i as nat, interleave_order(i as nat), f);
    }
    interleave_partitions(&mut prod, k);
    riffle(&mut save);
    let mut range = TokenStream::new();
    range.push_unsuffixed(0);
    range.push_punct("..");
    range.push_expr(&a.p);
    let mut step = TokenStream::new();
    step.append_all(&yvecs);
    step.append_all(&prod);
    let mut body = TokenStream::new();
    body.append_all(&tvecs);
    push_for_each(&mut body, &range, &step);
    body.append_all(&save);
    emit_unsafe_block(&body)
}

/// The reordered kernel for an aligned panel of `M` accumulators and `B`
/// operands per step, for the arguments read from a split input, or the
/// reading error unchanged.
pub fn mult_alligned_from_split(split: Result<Vec<String>, String>) -> (r: Result<TokenStream, ArgsError>)
    ensures
        kernel_emitted(
            r,
            kernel_args_outcome(split_view(split), "variable not found"@),
            |a: KernelArgsV| mult_kernel_toks(a, M, B),
        ),
{
    match kernel_args_from_split(split) {
        Err(e) => Err(e),
        Ok(a) => Ok(emit_mult_kernel(&a, M, B)),
    }
}

/// Reads the kernel arguments from `input`, split by `syn`, and emits the
/// reordered kernel for an aligned panel of `M` accumulators and `B`
/// operands per step.
pub fn mult_alligned(input: &str) -> (r: Result<TokenStream, ArgsError>)
    ensures
        kernel_result(
            r,
            |m: Seq<char>| is_variable_not_found(m),
            |a: KernelArgsV| mult_kernel_toks(a, M, B),
        ),
{
    let split = split_exprs(input);
    let ghost outcome = kernel_args_outcome(split_view(split), "variable not found"@);
    let r = mult_alligned_from_split(split);
    proof {
        lemma_kernel_emitted_result(
            r,
            outcome,
            |m: Seq<char>| is_variable_not_found(m),
            |a: KernelArgsV| mult_kernel_toks(a, M, B),
        );
    }
    r
}

/// The masked kernel emitted by `mult_unalligned` for `i` accumulators and
/// `k` operands per step: `mask_m` bound to `MASK[m]` and `mask_n` to
/// `MASK[n]`, the accumulator loads under `mask_m` riffled, `p` steps of
/// operand loads under `mask_n` followed by the masked products riffled and
/// then interleaved within each operand's block, and the masked stores
/// riffled.
pub open spec fn masked_kernel_toks(a: KernelArgsV, i: usize, k: usize) -> Seq<TokV> {
    let tids = numbered_names("r"@, i as nat);
    let yids = numbered_names("b"@, k as nat);
    unsafe_block(
        mask_init("mask_m"@, a.m) + mask_init("mask_n"@, a.n) + permute(
            mload_vecs_toks("mask_m"@, tids, a.tptr, a.s_t),
            riffle_order(i as nat),
        ).flatten() + for_each(
            zero_to(a.p),
            mload_vecs_toks("mask_n"@, yids, a.yptr, a.s_y).flatten() + blockwise(
                blockwise(
                    product_toks(Some("mask_m"@), tids, yids, a.xptr, a.s_x, false, k as nat),
                    k as nat,
                    i as nat,
                    riffle_order(i as nat),
                ),
                k as nat,
                i as nat,
                interleave_order(i as nat),
            ).flatten(),
        ) + permute(
            mwrite_outcome_toks("mask_m"@, "mask_n"@, tids, a.tptr, a.s_t),
            riffle_order(i as nat),
        ).flatten(),
    )
}

/// The reordered masked kernel for `i` accumulators and `k` operands per step.
pub fn emit_masked_kernel(a: &KernelArgs, i: usize, k: usize) -> (r: TokenStream)
    requires
        1 <= i <= 65,
        1 <= k,
        i * k <= usize::MAX,
    ensures
        r@ == masked_kernel_toks(a@, i, k),
{
    let tids = name_tvecs(i);
    let yids = name_yvecs(k);
    let mask_m = name("mask_m");
    let mask_n = name("mask_n");
    let mut masks = emit_mask_init(&mask_m, &a.m);
    masks.append(&emit_mask_init(&mask_n, &a.n));
    let mut tvecs = mload_vecs(&mask_m, &tids, &a.tptr, &a.s_t, i);
    let yvecs = mload_vecs(&mask_n, &yids, &a.yptr, &a.s_y, k);
    let mut prod = mfma_product(&mask_m, &tids, &yids, &a.xptr, &a.s_x, i, k);
    let mut save = mwrite_outcome(&mask_m, &mask_n, &tids, &a.tptr, &a.s_t, i);
    let ghost f = |t: TokenStream| t@;
    let ghost prod0 = prod@;
    assert(tvecs@.len() == i) by {
        assert(stream_values(tvecs@).len() == tvecs@.len());
        assert(names(tids@).len() == tids@.len());
    }
    assert(save@.len() == i) by {
        assert(stream_values(save@).len() == save@.len());
        assert(names(tids@).len() == tids@.len());
    }
    proof {
        lemma_riffle_order_is_permutation(i as nat);
        lemma_interleave_order_is_permutation(i as nat);
        lemma_permute_map(tvecs@, riffle_order(i as nat), f);
        lemma_permute_map(save@, riffle_order(i as nat), f);
        crate::avx2::emitters::lemma_grid_len(
            k as nat,
            i as nat,
            |bdx: int, idx: int|
                crate::avx2::emitters::product_elem(
                    Some("mask_m"@),
                    names(tids@),
                    names(yids@),
                    a.xptr@,
                    a.s_x@,
                    false,
                    bdx,
                    idx,
                ),
        );
        assert(prod@.len() == k * i);
        assert(k * i == i * k) by (nonlinear_arith);
        assert(((i * k) as nat) / (k as nat) == i) by (nonlinear_arith)
            requires
                k >= 1,
        ;
        assert(k <= i * k) by (nonlinear_arith)
            requires
                i >= 1,
        ;
        lemma_blockwise_map(prod0, k as nat, i as nat, riffle_order(i as nat), f);
    }
    riffle(&mut tvecs);
    riffle_partitions(&mut prod, k);
    let ghost prod1 = prod@;
    proof {
        crate::instructs::perms::lemma_blockwise_len(prod0, k as nat, i as nat, riffle_order(i as nat));
        lemma_blockwise_map(prod1, k as nat, i as nat, interleave_order(i as nat), f);
    }
    interleave_partitions(&mut prod, k);
    riffle(&mut save);
    let mut range = TokenStream::new();
    range.push_unsuffixed(0);
    range.push_punct("..");
    range.push_expr(&a.p);
    let mut step = TokenStream::new();
    step.append_all(&yvecs);
    step.append_all(&prod);
    let mut body = masks;
    body.append_all(&tvecs);
    push_for_each(&mut body, &range, &step);
    body.append_all(&save);
    emit_unsafe_block(&body)
}

/// The reordered masked kernel for a panel of `M` accumulators and `B`
/// operands per step, for the arguments read from a split input, or the
/// reading error unchanged.
pub fn mult_unalligned_from_split(split: Result<Vec<String>, String>) -> (r: Result<
    TokenStream,
    ArgsError,
>)
    ensures
        kernel_emitted(
            r,
            kernel_args_outcome(split_view(split), "variable not found"@),
            |a: KernelArgsV| masked_kernel_toks(a, M, B),
        ),
{
    match kernel_args_from_split(split) {
        Err(e) => Err(e),
        Ok(a) => Ok(emit_masked_kernel(&a, M, B)),
    }
}

/// Reads the kernel arguments from `input`, split by `syn`, and emits the
/// reordered masked kernel for a panel of `M` accumulators and `B` operands
/// per step.
pub fn mult_unalligned(input: &str) -> (r: Result<TokenStream, ArgsError>)
    ensures
        kernel_result(
            r,
            |m: Seq<char>| is_variable_not_found(m),
            |a: KernelArgsV| masked_kernel_toks(a, M, B),
        ),
{
    let split = split_exprs(input);
    let ghost outcome = kernel_args_outcome(split_view(split), "variable not found"@);
    let r = mult_unalligned_from_split(split);
    proof {
        lemma_kernel_emitted_result(
            r,
            outcome,
            |m: Seq<char>| is_variable_not_found(m),
            |a: KernelArgsV| masked_kernel_toks(a, M, B),
        );
    }
    r
}

} // verus!
