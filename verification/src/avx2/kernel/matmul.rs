//! Kernels that multiply an `i`-row panel by `k` operand rows at a time,
//! with a tail for the remaining steps, and variants for triangular operands.
use vstd::prelude::*;
use crate::avx2::emitters::{
    Instr, Vars, halvings, increment, increment_toks, index_matrix_toks, init_var, init_var_toks,
    lhandle_lowtri, lhandle_uptri, load_vecs, load_vecs_toks, lowtri_block, mload_vecs,
    mload_vecs_toks, mfma_product, mhandle_tail, mwrite_outcome, mwrite_outcome_toks, name,
    name_range, names, numbered_names, product_toks, rhandle_lowtrie, rhandle_uptri, rlowtri_toks,
    ruptri_toks, tail_start, lemma_tail_start_bounds, tail_toks, uptri_block, write_outcome, write_outcome_toks, fma_product,
    handle_tail,
};
use crate::avx2::kernel::{
    ArgsError, KernelArgs, KernelArgsV, args_error_view, emit_unsafe_block, for_each,
    kernel_args_from_split, kernel_args_outcome, kernel_emitted, push_for_each, split_view,
    steps_range, unsafe_block,
};
use crate::parse::split_exprs;
use crate::tokens::{Delim, Expr, Ident, TokV, TokenStream, group, ident, punct};

verus! {

/// The accumulator names `m0 .. m{i - 1}`.
pub open spec fn acc_names(i: usize) -> Seq<Seq<char>> {
    numbered_names("m"@, i as nat)
}

/// The operand names `b0 .. b{k - 1}`.
pub open spec fn operand_names(k: usize) -> Seq<Seq<char>> {
    numbered_names("b"@, k as nat)
}

/// `0..#p`
pub open spec fn zero_to(p: Seq<char>) -> Seq<TokV> {
    seq![TokV::Unsuffixed(0), punct(".."@), TokV::Expr(p)]
}

/// `let mut #name = MASK[#e];`
pub open spec fn mask_init(name: Seq<char>, e: Seq<char>) -> Seq<TokV> {
    init_var_toks(name, seq![ident("MASK"@)] + group(Delim::Bracket, seq![TokV::Expr(e)]))
}

/// The kernel emitted by `mult_alligned`.
pub open spec fn mult_alligned_toks(a: KernelArgsV, i: usize, k: usize) -> Seq<TokV> {
    let tids = acc_names(i);
    let yids = operand_names(k);
    unsafe_block(
        load_vecs_toks(tids, a.tptr, a.s_t).flatten() + for_each(
            zero_to(a.p),
            load_vecs_toks(yids, a.yptr, a.s_y).flatten() + product_toks(
                None,
                tids,
                yids,
                a.xptr,
                a.s_x,
                false,
                k as nat,
            ).flatten() + increment_toks(a.yptr, index_matrix_toks(a.yptr, a.s_y, 0, k))
                + increment_toks(a.yptr, index_matrix_toks(a.yptr, a.s_y, k, 0)),
        ) + tail_toks(
            None,
            tids,
            yids,
            a.xptr,
            a.yptr,
            a.s_x,
            a.s_y,
            a.p,
            false,
            halvings(tail_start(k as nat)),
        ).flatten() + write_outcome_toks(tids, a.tptr, a.s_t).flatten(),
    )
}

/// The aligned kernel for `i` accumulator rows and `k` operand rows per
/// step: loads the accumulators, runs `p` steps that each load `k` operand
/// rows and add their products, handles the tail by powers of two, and
/// stores the accumulators. Each step moves `yptr` twice (by `k` columns,
/// then by `k` rows), and the tail moves the variables `xptr` and `yptr`.
pub fn emit_mult_alligned(a: &KernelArgs, i: usize, k: usize) -> (r: TokenStream)
    requires
        k >= 1,
    ensures
        r@ == mult_alligned_toks(a@, i, k),
{
    let tids = name_range("m", i);
    let yids = name_range("b", k);
    proof {
        lemma_tail_start_bounds(k as nat);
    }
    let tvecs = load_vecs(&tids, &a.tptr, &a.s_t, i);
    let yvecs = load_vecs(&yids, &a.yptr, &a.s_y, k);
    let yinc = increment(&a.yptr, &a.s_y, k, 0);
    let xinc = increment(&a.yptr, &a.s_y, 0, k);
    let prod = fma_product(&tids, &yids, &a.xptr, &a.s_x, i, k);
    let tail = handle_tail(&tids, &yids, &a.xptr, &a.yptr, &a.s_x, &a.s_y, &a.p, k);
    let save = write_outcome(&tids, &a.tptr, &a.s_t, i);
    let mut range = TokenStream::new();
    range.push_unsuffixed(0);
    range.push_punct("..");
    range.push_expr(&a.p);
    let mut step = TokenStream::new();
    step.append_all(&yvecs);
    step.append_all(&prod);
    step.append(&xinc);
    step.append(&yinc);
    let mut body = TokenStream::new();
    body.append_all(&tvecs);
    push_for_each(&mut body, &range, &step);
    body.append_all(&tail);
    body.append_all(&save);
    emit_unsafe_block(&body)
}

/// What a kernel read from raw input can be, whatever `syn` made of the
/// input: some kernel `want(args)`, a syntax error, or a missing-argument
/// error whose message satisfies `missing_ok`.
pub open spec fn kernel_result(
    r: Result<TokenStream, ArgsError>,
    missing_ok: spec_fn(Seq<char>) -> bool,
    want: spec_fn(KernelArgsV) -> Seq<TokV>,
) -> bool {
    match r {
        Ok(ts) => exists|a: KernelArgsV| #[trigger] want(a) == ts@,
        Err(ArgsError::Missing(m)) => missing_ok(m@),
        Err(ArgsError::Syntax(_)) => true,
    }
}

/// "variable not found"
pub open spec fn is_variable_not_found(m: Seq<char>) -> bool {
    m == "variable not found"@
}

/// A kernel emitted after a reading whose missing-argument messages all
/// satisfy `missing_ok` is one of the results a kernel read from raw input
/// can have.
pub(crate) proof fn lemma_kernel_emitted_result(
    r: Result<TokenStream, ArgsError>,
    outcome: Result<KernelArgsV, (bool, Seq<char>)>,
    missing_ok: spec_fn(Seq<char>) -> bool,
    want: spec_fn(KernelArgsV) -> Seq<TokV>,
)
    requires
        kernel_emitted(r, outcome, want),
        (outcome is Err && !outcome->Err_0.0) ==> missing_ok(outcome->Err_0.1),
    ensures
        kernel_result(r, missing_ok, want),
{
    if let Ok(a) = outcome {
        assert(want(a) == r->Ok_0@);
    }
}

/// The aligned kernel for the arguments read from a split input, or the
/// reading error unchanged.
pub fn mult_alligned_from_split(split: Result<Vec<String>, String>, i: usize, k: usize) -> (r: Result<
    TokenStream,
    ArgsError,
>)
    requires
        k >= 1,
    ensures
        kernel_emitted(
            r,
            kernel_args_outcome(split_view(split), "variable not found"@),
            |a: KernelArgsV| mult_alligned_toks(a, i, k),
        ),
{
    match kernel_args_from_split(split) {
        Err(e) => Err(e),
        Ok(a) => Ok(emit_mult_alligned(&a, i, k)),
    }
}

/// Reads the kernel arguments from `input`, split by `syn`, and emits the
/// aligned kernel.
pub fn mult_alligned(input: &str, i: usize, k: usize) -> (r: Result<TokenStream, ArgsError>)
    requires
        k >= 1,
    ensures
        kernel_result(
            r,
            |m: Seq<char>| is_variable_not_found(m),
            |a: KernelArgsV| mult_alligned_toks(a, i, k),
        ),
{
    let split = split_exprs(input);
    let ghost outcome = kernel_args_outcome(split_view(split), "variable not found"@);
    let r = mult_alligned_from_split(split, i, k);
    proof {
        lemma_kernel_emitted_result(
            r,
            outcome,
            |m: Seq<char>| is_variable_not_found(m),
            |a: KernelArgsV| mult_alligned_toks(a, i, k),
        );
    }
    r
}

/// `let mut #name = MASK[#e];`
pub(crate) fn emit_mask_init(name: &Ident, e: &Expr) -> (r: TokenStream)
    ensures
        r@ == mask_init(name@, e@),
{
    let mut val = TokenStream::new();
    val.push_ident("MASK");
    let mut grp = TokenStream::new();
    grp.push_expr(e);
    val.push_group(Delim::Bracket, &grp);
    init_var(name, &val)
}

/// `#lo..#p / #k`
fn emit_steps_range(lo: &Ident, p: &Expr, k: usize) -> (r: TokenStream)
    ensures
        r@ == steps_range(ident(lo@), p@, k),
{
    let mut range = TokenStream::new();
    range.push_name(lo);
    range.push_punct("..");
    range.push_expr(p);
    range.push_punct("/");
    range.push_suffixed(k);
    range
}

/// `0..#p / #k`
fn emit_zero_steps_range(p: &Expr, k: usize) -> (r: TokenStream)
    ensures
        r@ == steps_range(TokV::Unsuffixed(0), p@, k),
{
    let mut range = TokenStream::new();
    range.push_unsuffixed(0);
    range.push_punct("..");
    range.push_expr(p);
    range.push_punct("/");
    range.push_suffixed(k);
    range
}

/// The parts shared by the masked kernels.
pub struct MaskedParts {
    pub tids: Vars,
    pub yids: Vars,
    pub mask_m: Ident,
    pub mask_n: Ident,
    pub load_masks: TokenStream,
    pub tvecs: Instr,
    pub yvecs: Instr,
    pub fma: Instr,
    pub tail: Instr,
    pub save: Instr,
}

/// `let mut mask_m = MASK[#m]; let mut mask_m = MASK[#n];` (both masks are
/// initialized into `mask_m`).
pub open spec fn load_masks_toks(a: KernelArgsV) -> Seq<TokV> {
    mask_init("mask_m"@, a.m) + mask_init("mask_m"@, a.n)
}

/// The accumulator loads under `mask_m`.
pub open spec fn masked_tvecs(a: KernelArgsV, i: usize) -> Seq<TokV> {
    mload_vecs_toks("mask_m"@, acc_names(i), a.tptr, a.s_t).flatten()
}

/// The operand loads under `mask_n`.
pub open spec fn masked_yvecs(a: KernelArgsV, k: usize) -> Seq<TokV> {
    mload_vecs_toks("mask_n"@, operand_names(k), a.yptr, a.s_y).flatten()
}

/// The masked products of a step.
pub open spec fn masked_fma(a: KernelArgsV, i: usize, k: usize) -> Seq<TokV> {
    product_toks(Some("mask_m"@), acc_names(i), operand_names(k), a.xptr, a.s_x, false, k as nat).flatten()
}

/// The masked tail.
pub open spec fn masked_tail(a: KernelArgsV, i: usize, k: usize) -> Seq<TokV> {
    tail_toks(
        Some(("mask_m"@, "mask_n"@)),
        acc_names(i),
        operand_names(k),
        a.xptr,
        a.yptr,
        a.s_x,
        a.s_y,
        a.p,
        false,
        halvings(tail_start(k as nat)),
    ).flatten()
}

/// The masked stores of the accumulators.
pub open spec fn masked_save(a: KernelArgsV, i: usize) -> Seq<TokV> {
    mwrite_outcome_toks("mask_m"@, "mask_n"@, acc_names(i), a.tptr, a.s_t).flatten()
}

impl MaskedParts {
    /// The parts, with their statements already joined.
    pub open spec fn valid(&self, a: KernelArgsV, i: usize, k: usize) -> bool {
        &&& names(self.tids@) == acc_names(i)
        &&& names(self.yids@) == operand_names(k)
        &&& self.tids@.len() == i
        &&& self.yids@.len() == k
        &&& self.mask_m@ == "mask_m"@
        &&& self.mask_n@ == "mask_n"@
        &&& self.load_masks@ == load_masks_toks(a)
        &&& crate::tokens::concat_streams(self.tvecs@) == masked_tvecs(a, i)
        &&& crate::tokens::concat_streams(self.yvecs@) == masked_yvecs(a, k)
        &&& crate::tokens::concat_streams(self.fma@) == masked_fma(a, i, k)
        &&& crate::tokens::concat_streams(self.tail@) == masked_tail(a, i, k)
        &&& crate::tokens::concat_streams(self.save@) == masked_save(a, i)
    }
}

/// The parts shared by the masked kernels for `i` accumulators and `k`
/// operands per step.
fn masked_parts(a: &KernelArgs, i: usize, k: usize) -> (r: MaskedParts)
    requires
        k >= 1,
    ensures
        r.valid(a@, i, k),
{
    let tids = name_range("m", i);
    let yids = name_range("b", k);
    proof {
        lemma_tail_start_bounds(k as nat);
    }
    let mask_m = name("mask_m");
    let mask_n = name("mask_n");
    let mut load_masks = emit_mask_init(&mask_m, &a.m);
    load_masks.append(&emit_mask_init(&mask_m, &a.n));
    let tvecs = mload_vecs(&mask_m, &tids, &a.tptr, &a.s_t, i);
    let yvecs = mload_vecs(&mask_n, &yids, &a.yptr, &a.s_y, k);
    let fma = mfma_product(&mask_m, &tids, &yids, &a.xptr, &a.s_x, i, k);
    let tail = mhandle_tail(&mask_m, &mask_n, &tids, &yids, &a.xptr, &a.yptr, &a.s_x, &a.s_y, &a.p, k);
    let save = mwrite_outcome(&mask_m, &mask_n, &tids, &a.tptr, &a.s_t, i);
    MaskedParts { tids, yids, mask_m, mask_n, load_masks, tvecs, yvecs, fma, tail, save }
}

/// The kernel emitted by `mult_unalligned`.
pub open spec fn mult_unalligned_toks(a: KernelArgsV, i: usize, k: usize) -> Seq<TokV> {
    unsafe_block(
        load_masks_toks(a) + masked_tvecs(a, i) + for_each(
            steps_range(TokV::Unsuffixed(0), a.p, k),
            masked_yvecs(a, k) + masked_fma(a, i, k) + increment_toks(
                a.yptr,
                index_matrix_toks(a.yptr, a.s_y, k, 0),
            ) + increment_toks(a.yptr, index_matrix_toks(a.yptr, a.s_y, 0, k)),
        ) + masked_tail(a, i, k) + masked_save(a, i),
    )
}

/// The unaligned kernel: as the aligned one, with every load, product and
/// store masked, and `p / k` steps.
///
/// The emitted code binds `mask_m` twice (to `MASK[m]`, then to
/// `MASK[n]`) and never binds `mask_n`, and each step moves `yptr` twice (by
/// `k` columns, then by `k` rows); the code works only where the
/// surrounding code binds `mask_n`.
pub fn emit_mult_unalligned(a: &KernelArgs, i: usize, k: usize) -> (r: TokenStream)
    requires
        k >= 1,
    ensures
        r@ == mult_unalligned_toks(a@, i, k),
{
    let parts = masked_parts(a, i, k);
    let yinc = increment(&a.yptr, &a.s_y, k, 0);
    let xinc = increment(&a.yptr, &a.s_y, 0, k);
    let range = emit_zero_steps_range(&a.p, k);
    let mut step = TokenStream::new();
    step.append_all(&parts.yvecs);
    step.append_all(&parts.fma);
    step.append(&yinc);
    step.append(&xinc);
    let mut body = parts.load_masks.clone_stream();
    body.append_all(&parts.tvecs);
    push_for_each(&mut body, &range, &step);
    body.append_all(&parts.tail);
    body.append_all(&parts.save);
    emit_unsafe_block(&body)
}

/// The unaligned kernel for the arguments read from a split input, or the
/// reading error unchanged.
pub fn mult_unalligned_from_split(split: Result<Vec<String>, String>, i: usize, k: usize) -> (r: Result<
    TokenStream,
    ArgsError,
>)
    requires
        k >= 1,
    ensures
        kernel_emitted(
            r,
            kernel_args_outcome(split_view(split), "variable not found"@),
            |a: KernelArgsV| mult_unalligned_toks(a, i, k),
        ),
{
    match kernel_args_from_split(split) {
        Err(e) => Err(e),
        Ok(a) => Ok(emit_mult_unalligned(&a, i, k)),
    }
}

/// Reads the kernel arguments from `input`, split by `syn`, and emits the
/// unaligned kernel.
pub fn mult_unalligned(input: &str, i: usize, k: usize) -> (r: Result<TokenStream, ArgsError>)
    requires
        k >= 1,
    ensures
        kernel_result(
            r,
            |m: Seq<char>| is_variable_not_found(m),
            |a: KernelArgsV| mult_unalligned_toks(a, i, k),
        ),
{
    let split = split_exprs(input);
    let ghost outcome = kernel_args_outcome(split_view(split), "variable not found"@);
    let r = mult_unalligned_from_split(split, i, k);
    proof {
        lemma_kernel_emitted_result(
            r,
            outcome,
            |m: Seq<char>| is_variable_not_found(m),
            |a: KernelArgsV| mult_unalligned_toks(a, i, k),
        );
    }
    r
}

/// The kernel emitted by `lmult_lower_tri`.
pub open spec fn lmult_lower_tri_toks(a: KernelArgsV, i: usize, k: usize) -> Seq<TokV> {
    let tids = acc_names(i);
    let b = operand_names(k)[0];
    unsafe_block(
        load_masks_toks(a) + masked_tvecs(a, i) + for_each(
            steps_range(ident("threshold"@), a.p, k),
            masked_yvecs(a, k) + masked_fma(a, i, k) + increment_toks(
                a.yptr,
                index_matrix_toks(a.yptr, a.s_y, 0, k),
            ) + increment_toks(a.yptr, index_matrix_toks(a.yptr, a.s_y, k, 0)),
        ) + masked_tail(a, i, k) + Seq::new(
            i as nat,
            |r: int| lowtri_block("mask_n"@, tids, a.xptr, a.yptr, a.s_x, a.s_y, b, i as int, r),
        ).flatten() + masked_save(a, i),
    )
}

/// The tokens meant for `L * A` with `L` lower triangular: the unaligned
/// kernel whose steps run from `threshold`, followed by the triangular
/// blocks of the `i` columns of `L`.
///
/// The emitted code binds `mask_m` twice (to `MASK[m]`, then to
/// `MASK[n]`) and never binds `mask_n`, uses `threshold` without binding
/// it, and each step moves `yptr` twice (by `k` columns, then by `k` rows);
/// the code works only where the surrounding code binds `mask_n` and
/// `threshold`.
pub fn emit_lmult_lower_tri(a: &KernelArgs, i: usize, k: usize) -> (r: TokenStream)
    requires
        k >= 1,
    ensures
        r@ == lmult_lower_tri_toks(a@, i, k),
{
    let parts = masked_parts(a, i, k);
    let hid = name("threshold");
    let yinc = increment(&a.yptr, &a.s_y, k, 0);
    let xinc = increment(&a.yptr, &a.s_y, 0, k);
    let tri = lhandle_lowtri(&parts.mask_n, &parts.tids, &a.xptr, &a.yptr, &a.s_x, &a.s_y, &parts.yids[0], i);
    let range = emit_steps_range(&hid, &a.p, k);
    let mut step = TokenStream::new();
    step.append_all(&parts.yvecs);
    step.append_all(&parts.fma);
    step.append(&xinc);
    step.append(&yinc);
    let mut body = parts.load_masks.clone_stream();
    body.append_all(&parts.tvecs);
    push_for_each(&mut body, &range, &step);
    body.append_all(&parts.tail);
    body.append_all(&tri);
    body.append_all(&parts.save);
    emit_unsafe_block(&body)
}

/// The tokens meant for the `L * A` kernel for the arguments read from a split input, or the
/// reading error unchanged.
pub fn lmult_lower_tri_from_split(split: Result<Vec<String>, String>, i: usize, k: usize) -> (r: Result<
    TokenStream,
    ArgsError,
>)
    requires
        k >= 1,
    ensures
        kernel_emitted(
            r,
            kernel_args_outcome(split_view(split), "variable not found"@),
            |a: KernelArgsV| lmult_lower_tri_toks(a, i, k),
        ),
{
    match kernel_args_from_split(split) {
        Err(e) => Err(e),
        Ok(a) => Ok(emit_lmult_lower_tri(&a, i, k)),
    }
}

/// Reads the kernel arguments from `input`, split by `syn`, and emits the
/// tokens meant for the `L * A` kernel (see its emitter for the variables they
/// leave unbound).
pub fn lmult_lower_tri(input: &str, i: usize, k: usize) -> (r: Result<TokenStream, ArgsError>)
    requires
        k >= 1,
    ensures
        kernel_result(
            r,
            |m: Seq<char>| is_variable_not_found(m),
            |a: KernelArgsV| lmult_lower_tri_toks(a, i, k),
        ),
{
    let split = split_exprs(input);
    let ghost outcome = kernel_args_outcome(split_view(split), "variable not found"@);
    let r = lmult_lower_tri_from_split(split, i, k);
    proof {
        lemma_kernel_emitted_result(
            r,
            outcome,
            |m: Seq<char>| is_variable_not_found(m),
            |a: KernelArgsV| lmult_lower_tri_toks(a, i, k),
        );
    }
    r
}

/// The kernel emitted by `lmult_upper_tri`.
pub open spec fn lmult_upper_tri_toks(a: KernelArgsV, i: usize, k: usize) -> Seq<TokV> {
    let tids = acc_names(i);
    let b = operand_names(k)[0];
    unsafe_block(
        load_masks_toks(a) + masked_tvecs(a, i) + Seq::new(
            i as nat,
            |r: int| uptri_block("mask_n"@, tids, a.xptr, a.yptr, a.s_x, a.s_y, b, r),
        ).flatten() + for_each(
            steps_range(ident("threshold"@), a.p, k),
            masked_yvecs(a, k) + masked_fma(a, i, k) + increment_toks(
                a.yptr,
                index_matrix_toks(a.yptr, a.s_y, k, 0),
            ) + increment_toks(a.xptr, index_matrix_toks(a.xptr, a.s_x, 0, k)),
        ) + masked_tail(a, i, k) + masked_save(a, i),
    )
}

/// The tokens meant for `U * A` with `U` upper triangular: the triangular
/// blocks of the `i` columns of `U` first, then the unaligned steps from
/// `threshold`.
///
/// The emitted code binds `mask_m` twice (to `MASK[m]`, then to
/// `MASK[n]`) and never binds `mask_n` and uses `threshold` without binding
/// it; the code works only where the surrounding code binds both.
pub fn emit_lmult_upper_tri(a: &KernelArgs, i: usize, k: usize) -> (r: TokenStream)
    requires
        k >= 1,
    ensures
        r@ == lmult_upper_tri_toks(a@, i, k),
{
    let parts = masked_parts(a, i, k);
    let hid = name("threshold");
    let tri = lhandle_uptri(&parts.mask_n, &parts.tids, &a.xptr, &a.yptr, &a.s_x, &a.s_y, &parts.yids[0], i);
    let yinc = increment(&a.yptr, &a.s_y, k, 0);
    let xinc = increment(&a.xptr, &a.s_x, 0, k);
    let range = emit_steps_range(&hid, &a.p, k);
    let mut step = TokenStream::new();
    step.append_all(&parts.yvecs);
    step.append_all(&parts.fma);
    step.append(&yinc);
    step.append(&xinc);
    let mut body = parts.load_masks.clone_stream();
    body.append_all(&parts.tvecs);
    body.append_all(&tri);
    push_for_each(&mut body, &range, &step);
    body.append_all(&parts.tail);
    body.append_all(&parts.save);
    emit_unsafe_block(&body)
}

/// The tokens meant for the `U * A` kernel for the arguments read from a split input, or the
/// reading error unchanged.
pub fn lmult_upper_tri_from_split(split: Result<Vec<String>, String>, i: usize, k: usize) -> (r: Result<
    TokenStream,
    ArgsError,
>)
    requires
        k >= 1,
    ensures
        kernel_emitted(
            r,
            kernel_args_outcome(split_view(split), "variable not found"@),
            |a: KernelArgsV| lmult_upper_tri_toks(a, i, k),
        ),
{
    match kernel_args_from_split(split) {
        Err(e) => Err(e),
        Ok(a) => Ok(emit_lmult_upper_tri(&a, i, k)),
    }
}

/// Reads the kernel arguments from `input`, split by `syn`, and emits the
/// tokens meant for the `U * A` kernel (see its emitter for the variables they
/// leave unbound).
pub fn lmult_upper_tri(input: &str, i: usize, k: usize) -> (r: Result<TokenStream, ArgsError>)
    requires
        k >= 1,
    ensures
        kernel_result(
            r,
            |m: Seq<char>| is_variable_not_found(m),
            |a: KernelArgsV| lmult_upper_tri_toks(a, i, k),
        ),
{
    let split = split_exprs(input);
    let ghost outcome = kernel_args_outcome(split_view(split), "variable not found"@);
    let r = lmult_upper_tri_from_split(split, i, k);
    proof {
        lemma_kernel_emitted_result(
            r,
            outcome,
            |m: Seq<char>| is_variable_not_found(m),
            |a: KernelArgsV| lmult_upper_tri_toks(a, i, k),
        );
    }
    r
}

/// `let mut mask_t = [0; #m];`
pub open spec fn lfilter_toks(m: Seq<char>) -> Seq<TokV> {
    init_var_toks(
        "mask_t"@,
        group(Delim::Bracket, seq![TokV::Unsuffixed(0), punct(";"@), TokV::Expr(m)]),
    )
}

/// The kernel emitted by `rmult_lower_tri`.
pub open spec fn rmult_lower_tri_toks(a: KernelArgsV, i: usize, k: usize) -> Seq<TokV> {
    let tids = acc_names(i);
    let b = operand_names(k)[0];
    unsafe_block(
        load_masks_toks(a) + masked_tvecs(a, i) + seq![ident("threshold"@)] + lfilter_toks(a.m)
            + rlowtri_toks(
            "mask_n"@,
            "mask_t"@,
            tids,
            a.xptr,
            a.yptr,
            a.s_x,
            a.s_y,
            "threshold"@,
            b,
        ) + for_each(
            steps_range(ident("threshold"@), a.p, k),
            masked_yvecs(a, k) + masked_fma(a, i, k) + increment_toks(
                a.xptr,
                index_matrix_toks(a.xptr, a.s_x, 0, k),
            ) + increment_toks(a.yptr, index_matrix_toks(a.yptr, a.s_y, k, 0)),
        ) + masked_tail(a, i, k) + masked_save(a, i),
    )
}

/// The tokens meant for `A * L` with `L` lower triangular: after the
/// accumulator loads, the variable `threshold` as a statement, a zeroed
/// `mask_t`, the loop over the top rows of the `L` slice (with `mask_n` and
/// `mask_t` passed in that order), the steps from `threshold`, the tail and
/// the stores.
///
/// The emitted code binds `mask_m` twice (to `MASK[m]`, then to
/// `MASK[n]`) and never binds `mask_n` and uses `threshold` without binding
/// it; the code works only where the surrounding code binds both.
pub fn emit_rmult_lower_tri(a: &KernelArgs, i: usize, k: usize) -> (r: TokenStream)
    requires
        k >= 1,
    ensures
        r@ == rmult_lower_tri_toks(a@, i, k),
{
    let parts = masked_parts(a, i, k);
    let hid = name("threshold");
    let mask_t = name("mask_t");
    let mut zeros = TokenStream::new();
    let mut grp = TokenStream::new();
    grp.push_unsuffixed(0);
    grp.push_punct(";");
    grp.push_expr(&a.m);
    zeros.push_group(Delim::Bracket, &grp);
    let lfilter = init_var(&mask_t, &zeros);
    let yinc = increment(&a.yptr, &a.s_y, k, 0);
    let xinc = increment(&a.xptr, &a.s_x, 0, k);
    let tri = rhandle_lowtrie(&parts.mask_n, &mask_t, &parts.tids, &a.xptr, &a.yptr, &a.s_x, &a.s_y, &hid, &parts.yids[0]);
    let range = emit_steps_range(&hid, &a.p, k);
    let mut step = TokenStream::new();
    step.append_all(&parts.yvecs);
    step.append_all(&parts.fma);
    step.append(&xinc);
    step.append(&yinc);
    let mut body = parts.load_masks.clone_stream();
    body.append_all(&parts.tvecs);
    body.push_name(&hid);
    body.append(&lfilter);
    body.append(&tri);
    push_for_each(&mut body, &range, &step);
    body.append_all(&parts.tail);
    body.append_all(&parts.save);
    emit_unsafe_block(&body)
}

/// The tokens meant for the `A * L` kernel for the arguments read from a split input, or the
/// reading error unchanged.
pub fn rmult_lower_tri_from_split(split: Result<Vec<String>, String>, i: usize, k: usize) -> (r: Result<
    TokenStream,
    ArgsError,
>)
    requires
        k >= 1,
    ensures
        kernel_emitted(
            r,
            kernel_args_outcome(split_view(split), "variable not found"@),
            |a: KernelArgsV| rmult_lower_tri_toks(a, i, k),
        ),
{
    match kernel_args_from_split(split) {
        Err(e) => Err(e),
        Ok(a) => Ok(emit_rmult_lower_tri(&a, i, k)),
    }
}

/// Reads the kernel arguments from `input`, split by `syn`, and emits the
/// tokens meant for the `A * L` kernel (see its emitter for the variables they
/// leave unbound).
pub fn rmult_lower_tri(input: &str, i: usize, k: usize) -> (r: Result<TokenStream, ArgsError>)
    requires
        k >= 1,
    ensures
        kernel_result(
            r,
            |m: Seq<char>| is_variable_not_found(m),
            |a: KernelArgsV| rmult_lower_tri_toks(a, i, k),
        ),
{
    let split = split_exprs(input);
    let ghost outcome = kernel_args_outcome(split_view(split), "variable not found"@);
    let r = rmult_lower_tri_from_split(split, i, k);
    proof {
        lemma_kernel_emitted_result(
            r,
            outcome,
            |m: Seq<char>| is_variable_not_found(m),
            |a: KernelArgsV| rmult_lower_tri_toks(a, i, k),
        );
    }
    r
}

/// The kernel emitted by `rmult_upper_tri`.
pub open spec fn rmult_upper_tri_toks(a: KernelArgsV, i: usize, k: usize) -> Seq<TokV> {
    let tids = acc_names(i);
    let b = operand_names(k)[0];
    unsafe_block(
        load_masks_toks(a) + masked_tvecs(a, i) + seq![ident("threshold"@)] + for_each(
            steps_range(ident("threshold"@), a.p, k),
            masked_yvecs(a, k) + masked_fma(a, i, k) + increment_toks(
                a.xptr,
                index_matrix_toks(a.xptr, a.s_x, 0, k),
            ) + increment_toks(a.yptr, index_matrix_toks(a.yptr, a.s_y, k, 0)),
        ) + init_var_toks("mask_t"@, seq![ident("mask_n"@)]) + ruptri_toks(
            "mask_n"@,
            "mask_t"@,
            tids,
            a.xptr,
            a.yptr,
            a.s_x,
            a.s_y,
            "threshold"@,
            b,
        ) + masked_tail(a, i, k) + masked_save(a, i),
    )
}

/// The tokens meant for `A * U` with `U` upper triangular: the steps from
/// `threshold` first, then `mask_t` set from `mask_n`, the loop over the top
/// rows of the `U` slice, the tail and the stores.
///
/// The emitted code binds `mask_m` twice (to `MASK[m]`, then to
/// `MASK[n]`) and never binds `mask_n` and uses `threshold` without binding
/// it; the code works only where the surrounding code binds both.
pub fn emit_rmult_upper_tri(a: &KernelArgs, i: usize, k: usize) -> (r: TokenStream)
    requires
        k >= 1,
    ensures
        r@ == rmult_upper_tri_toks(a@, i, k),
{
    let parts = masked_parts(a, i, k);
    let hid = name("threshold");
    let mask_t = name("mask_t");
    let mut from_n = TokenStream::new();
    from_n.push_name(&parts.mask_n);
    let load_mask_f = init_var(&mask_t, &from_n);
    let yinc = increment(&a.yptr, &a.s_y, k, 0);
    let xinc = increment(&a.xptr, &a.s_x, 0, k);
    let tri = rhandle_uptri(&parts.mask_n, &mask_t, &parts.tids, &a.xptr, &a.yptr, &a.s_x, &a.s_y, &hid, &parts.yids[0]);
    let range = emit_steps_range(&hid, &a.p, k);
    let mut step = TokenStream::new();
    step.append_all(&parts.yvecs);
    step.append_all(&parts.fma);
    step.append(&xinc);
    step.append(&yinc);
    let mut body = parts.load_masks.clone_stream();
    body.append_all(&parts.tvecs);
    body.push_name(&hid);
    push_for_each(&mut body, &range, &step);
    body.append(&load_mask_f);
    body.append(&tri);
    body.append_all(&parts.tail);
    body.append_all(&parts.save);
    emit_unsafe_block(&body)
}

/// The tokens meant for the `A * U` kernel for the arguments read from a split input, or the
/// reading error unchanged.
pub fn rmult_upper_tri_from_split(split: Result<Vec<String>, String>, i: usize, k: usize) -> (r: Result<
    TokenStream,
    ArgsError,
>)
    requires
        k >= 1,
    ensures
        kernel_emitted(
            r,
            kernel_args_outcome(split_view(split), "variable not found"@),
            |a: KernelArgsV| rmult_upper_tri_toks(a, i, k),
        ),
{
    match kernel_args_from_split(split) {
        Err(e) => Err(e),
        Ok(a) => Ok(emit_rmult_upper_tri(&a, i, k)),
    }
}

/// Reads the kernel arguments from `input`, split by `syn`, and emits the
/// tokens meant for the `A * U` kernel (see its emitter for the variables they
/// leave unbound).
pub fn rmult_upper_tri(input: &str, i: usize, k: usize) -> (r: Result<TokenStream, ArgsError>)
    requires
        k >= 1,
    ensures
        kernel_result(
            r,
            |m: Seq<char>| is_variable_not_found(m),
            |a: KernelArgsV| rmult_upper_tri_toks(a, i, k),
        ),
{
    let split = split_exprs(input);
    let ghost outcome = kernel_args_outcome(split_view(split), "variable not found"@);
    let r = rmult_upper_tri_from_split(split, i, k);
    proof {
        lemma_kernel_emitted_result(
            r,
            outcome,
            |m: Seq<char>| is_variable_not_found(m),
            |a: KernelArgsV| rmult_upper_tri_toks(a, i, k),
        );
    }
    r
}

} // verus!
