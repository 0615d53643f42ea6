//! What the emitted code does, stated in plain tokens: which row each load
//! and store moves, which element each product reads, what each tail block
//! and triangular block does and how it moves the pointers, what each
//! kernel's steps do, that reordering keeps each accumulator's products in
//! operand order, and that the kernels store their accumulators last.
use vstd::prelude::*;
use crate::avx2::emitters::{
    halvings, index_matrix_toks, load_vecs_toks, lowtri_block, mload_vecs_toks,
    mwrite_outcome_toks, product_toks, tail_body, tail_loads, tail_start, tail_toks, uptri_block,
    write_outcome_toks,
};
use crate::avx2::common::fma_product_elem;
use crate::avx2::emitters::{grid, lemma_grid_len, lemma_grid_push};
use crate::avx2::kernel::{KernelArgsV, for_each, steps_range};
use crate::avx2::kernel::alligned::kernel_products;
use crate::instructs::perms::{
    blockwise, interleave_order, is_permutation, lemma_spread_within_blocks, riffle_order,
    spread_order,
};
use crate::avx2::kernel::matmul::{
    acc_names, masked_fma, masked_yvecs, zero_to, lmult_lower_tri_toks, lmult_upper_tri_toks, masked_save, masked_tail,
    mult_alligned_toks, mult_unalligned_toks, operand_names, rmult_lower_tri_toks,
    rmult_upper_tri_toks,
};
use crate::tokens::{Delim, TokV, decimal, ident, punct};

verus! {

/// The first element of row `j` of the matrix at `ptr` with row stride
/// `stride`: `ptr`, `ptr.add(stride)`, or `ptr.add(stride * j)`.
pub open spec fn row_address(ptr: Seq<char>, stride: Seq<char>, j: nat) -> Seq<TokV> {
    if j == 0 {
        seq![TokV::Expr(ptr)]
    } else if j == 1 {
        seq![
            TokV::Expr(ptr),
            punct("."@),
            ident("add"@),
            TokV::Open(Delim::Paren),
            TokV::Expr(stride),
            TokV::Close(Delim::Paren),
        ]
    } else {
        seq![
            TokV::Expr(ptr),
            punct("."@),
            ident("add"@),
            TokV::Open(Delim::Paren),
            TokV::Expr(stride),
            punct("*"@),
            TokV::Suffixed(j as usize),
            TokV::Close(Delim::Paren),
        ]
    }
}

proof fn lemma_row_address(ptr: Seq<char>, stride: Seq<char>, j: usize)
    ensures
        index_matrix_toks(ptr, stride, j, 0) == row_address(ptr, stride, j as nat),
{
    assert(index_matrix_toks(ptr, stride, j, 0) =~= row_address(ptr, stride, j as nat));
}

/// `let #b = _mm256_loadu_ps(#addr);`, or `let #b = mask_load(#mask, #addr);`
/// under a mask.
pub open spec fn operand_load(mask: Option<Seq<char>>, b: Seq<char>, addr: Seq<TokV>) -> Seq<TokV> {
    seq![ident("let"@), ident(b), punct("="@)] + match mask {
        None => seq![ident("_mm256_loadu_ps"@), TokV::Open(Delim::Paren)] + addr + seq![
            TokV::Close(Delim::Paren),
        ],
        Some(m) => seq![ident("mask_load"@), TokV::Open(Delim::Paren), ident(m), punct(","@)]
            + addr + seq![TokV::Close(Delim::Paren)],
    } + seq![punct(";"@)]
}

/// The column mask of a tail's masks (`mask_m`, `mask_n`).
pub open spec fn column_mask(masks: Option<(Seq<char>, Seq<char>)>) -> Option<Seq<char>> {
    match masks {
        None => None,
        Some((_, n)) => Some(n),
    }
}

/// The loads of operands `yids[0 .. q]`, operand `j` from row `j` of the
/// matrix at `yptr`.
pub open spec fn row_loads(
    mask: Option<Seq<char>>,
    yids: Seq<Seq<char>>,
    yptr: Seq<char>,
    s_y: Seq<char>,
    q: nat,
) -> Seq<TokV> {
    Seq::new(q, |j: int| operand_load(mask, yids[j], row_address(yptr, s_y, j as nat))).flatten()
}

/// `blk` is the tail block of `q`: `if q & p != 0 { .. }`, whose body starts
/// by loading the operands from rows `0 .. q` and moves the operand pointer
/// `q` rows on (right after the loads when masked, as its last statement
/// otherwise, where the variable `yptr` is set).
pub open spec fn loads_rows_then_skips(
    blk: Seq<TokV>,
    masks: Option<(Seq<char>, Seq<char>)>,
    yids: Seq<Seq<char>>,
    yptr: Seq<char>,
    s_y: Seq<char>,
    p: Seq<char>,
    q: nat,
) -> bool {
    let loads = row_loads(column_mask(masks), yids, yptr, s_y, q);
    let skip = row_address(yptr, s_y, q);
    &&& blk.len() >= 8 + loads.len() + skip.len() + 3
    &&& blk.subrange(0, 7) == seq![
        ident("if"@),
        TokV::Suffixed(q as usize),
        punct("&"@),
        TokV::Expr(p),
        punct("!="@),
        TokV::Unsuffixed(0),
        TokV::Open(Delim::Brace),
    ]
    &&& blk.subrange(7, 7 + loads.len() as int) == loads
    &&& blk.last() == TokV::Close(Delim::Brace)
    &&& match masks {
        None => blk.subrange(blk.len() - 1 - (skip.len() + 3), blk.len() - 1) == seq![
            ident("yptr"@),
            punct("="@),
        ] + skip + seq![punct(";"@)],
        Some(_) => blk.subrange(7 + loads.len() as int, 7 + loads.len() + skip.len() + 3 as int) == seq![
            TokV::Expr(yptr),
            punct("="@),
        ] + skip + seq![punct(";"@)],
    }
}

proof fn lemma_tail_loads_rows(mask: Option<Seq<char>>, yids: Seq<Seq<char>>, yptr: Seq<char>, s_y: Seq<char>, q: nat)
    requires
        q <= usize::MAX,
    ensures
        tail_loads(mask, yids, yptr, s_y, q).flatten() == row_loads(mask, yids, yptr, s_y, q),
{
    let a = tail_loads(mask, yids, yptr, s_y, q);
    let b = Seq::new(q, |j: int| operand_load(mask, yids[j], row_address(yptr, s_y, j as nat)));
    assert forall|j: int| 0 <= j < q implies a[j] == b[j] by {
        lemma_row_address(yptr, s_y, j as usize);
        assert(a[j] =~= b[j]);
    }
    assert(a =~= b);
}

/// In every tail block, of `q` steps, operand `j` (`j < q`) is loaded from
/// the start of row `j` of the right operand, and the operand pointer then
/// moves `q` rows on, past the rows the block used.
pub proof fn lemma_tail_blocks_load_rows(
    masks: Option<(Seq<char>, Seq<char>)>,
    tids: Seq<Seq<char>>,
    yids: Seq<Seq<char>>,
    xptr: Seq<char>,
    yptr: Seq<char>,
    s_x: Seq<char>,
    s_y: Seq<char>,
    p: Seq<char>,
    transposed: bool,
    qs: Seq<nat>,
)
    requires
        forall|n: int| 0 <= n < qs.len() ==> #[trigger] qs[n] <= usize::MAX,
    ensures
        forall|n: int|
            0 <= n < qs.len() ==> loads_rows_then_skips(
                #[trigger] tail_toks(masks, tids, yids, xptr, yptr, s_x, s_y, p, transposed, qs)[n],
                masks,
                yids,
                yptr,
                s_y,
                p,
                qs[n],
            ),
{
    assert forall|n: int| 0 <= n < qs.len() implies loads_rows_then_skips(
        #[trigger] tail_toks(masks, tids, yids, xptr, yptr, s_x, s_y, p, transposed, qs)[n],
        masks,
        yids,
        yptr,
        s_y,
        p,
        qs[n],
    ) by {
        let q = qs[n];
        let blk = tail_toks(masks, tids, yids, xptr, yptr, s_x, s_y, p, transposed, qs)[n];
        let body = tail_body(masks, tids, yids, xptr, yptr, s_x, s_y, transposed, q);
        let loads = row_loads(column_mask(masks), yids, yptr, s_y, q);
        let skip = row_address(yptr, s_y, q);
        lemma_tail_loads_rows(column_mask(masks), yids, yptr, s_y, q);
        lemma_row_address(yptr, s_y, q as usize);
        assert(blk.subrange(0, 7) =~= seq![
            ident("if"@),
            TokV::Suffixed(q as usize),
            punct("&"@),
            TokV::Expr(p),
            punct("!="@),
            TokV::Unsuffixed(0),
            TokV::Open(Delim::Brace),
        ]);
        assert(blk.subrange(7, 7 + body.len() as int) =~= body);
        assert(body.subrange(0, loads.len() as int) =~= loads);
        assert(blk.subrange(7, 7 + loads.len() as int) =~= body.subrange(0, loads.len() as int));
        match masks {
            None => {
                let mv = seq![ident("yptr"@), punct("="@)] + skip + seq![punct(";"@)];
                assert(body.subrange(body.len() - mv.len(), body.len() as int) =~= mv);
                assert(blk.subrange(blk.len() - 1 - (skip.len() + 3), blk.len() - 1) =~= body.subrange(
                    body.len() - mv.len(),
                    body.len() as int,
                ));
            },
            Some(_) => {
                let mv = seq![TokV::Expr(yptr), punct("="@)] + skip + seq![punct(";"@)];
                assert(body.subrange(loads.len() as int, loads.len() + mv.len() as int) =~= mv);
                assert(blk.subrange(7 + loads.len() as int, 7 + loads.len() + skip.len() + 3 as int) =~= body.subrange(
                    loads.len() as int,
                    loads.len() + mv.len() as int,
                ));
            },
        }
    }
}

/// `xptr = xptr.add(1usize); yptr = yptr.add(s_y);`: one column of the left
/// operand and one row of the right operand on.
pub open spec fn next_column_and_row(xptr: Seq<char>, yptr: Seq<char>, s_y: Seq<char>) -> Seq<TokV> {
    seq![
        TokV::Expr(xptr),
        punct("="@),
        TokV::Expr(xptr),
        punct("."@),
        ident("add"@),
        TokV::Open(Delim::Paren),
        TokV::Suffixed(1),
        TokV::Close(Delim::Paren),
        punct(";"@),
        TokV::Expr(yptr),
        punct("="@),
    ] + row_address(yptr, s_y, 1) + seq![punct(";"@)]
}

/// `blk` is a braced block whose last statements are `step`.
pub open spec fn block_ends_with(blk: Seq<TokV>, step: Seq<TokV>) -> bool {
    &&& blk.len() >= step.len() + 2
    &&& blk[0] == TokV::Open(Delim::Brace)
    &&& blk.last() == TokV::Close(Delim::Brace)
    &&& blk.subrange(blk.len() - 1 - step.len(), blk.len() - 1) == step
}

/// Every block of an upper-triangular left operand ends by moving `xptr`
/// one column and `yptr` one row on, so after `m` blocks both have moved
/// `m` on; so does every block of a lower-triangular one but its last.
pub proof fn lemma_triangular_blocks_advance(
    mask_n: Seq<char>,
    tids: Seq<Seq<char>>,
    xptr: Seq<char>,
    yptr: Seq<char>,
    s_x: Seq<char>,
    s_y: Seq<char>,
    b: Seq<char>,
    m: int,
)
    ensures
        forall|i: int|
            0 <= i < m ==> block_ends_with(
                #[trigger] uptri_block(mask_n, tids, xptr, yptr, s_x, s_y, b, i),
                next_column_and_row(xptr, yptr, s_y),
            ),
        forall|i: int|
            0 <= i && i + 1 < m ==> block_ends_with(
                #[trigger] lowtri_block(mask_n, tids, xptr, yptr, s_x, s_y, b, m, i),
                next_column_and_row(xptr, yptr, s_y),
            ),
{
    let step = next_column_and_row(xptr, yptr, s_y);
    assert forall|i: int| 0 <= i < m implies block_ends_with(
        #[trigger] uptri_block(mask_n, tids, xptr, yptr, s_x, s_y, b, i),
        step,
    ) by {
        let blk = uptri_block(mask_n, tids, xptr, yptr, s_x, s_y, b, i);
        lemma_row_address(yptr, s_y, 1);
        assert(blk.subrange(blk.len() - 1 - step.len(), blk.len() - 1) =~= step);
    }
    assert forall|i: int| 0 <= i && i + 1 < m implies block_ends_with(
        #[trigger] lowtri_block(mask_n, tids, xptr, yptr, s_x, s_y, b, m, i),
        step,
    ) by {
        let blk = lowtri_block(mask_n, tids, xptr, yptr, s_x, s_y, b, m, i);
        lemma_row_address(yptr, s_y, 1);
        assert(blk.subrange(blk.len() - 1 - step.len(), blk.len() - 1) =~= step);
    }
}

/// `mask_store_ctrl(mask_m[r], mask_n, <row r of tptr>, m{r});` for each
/// accumulator `r < i`, in order.
pub open spec fn masked_stores(tptr: Seq<char>, s_t: Seq<char>, i: nat) -> Seq<TokV> {
    Seq::new(
        i,
        |r: int|
            seq![
                ident("mask_store_ctrl"@),
                TokV::Open(Delim::Paren),
                ident("mask_m"@),
                TokV::Open(Delim::Bracket),
                TokV::Suffixed(r as usize),
                TokV::Close(Delim::Bracket),
                punct(","@),
                ident("mask_n"@),
                punct(","@),
            ] + row_address(tptr, s_t, r as nat) + seq![
                punct(","@),
                ident("m"@ + decimal(r as nat)),
                TokV::Close(Delim::Paren),
                punct(";"@),
            ],
    ).flatten()
}

/// `_mm256_storeu_ps(<row r of tptr>, m{r});` for each accumulator `r < i`,
/// in order.
pub open spec fn plain_stores(tptr: Seq<char>, s_t: Seq<char>, i: nat) -> Seq<TokV> {
    Seq::new(
        i,
        |r: int|
            seq![ident("_mm256_storeu_ps"@), TokV::Open(Delim::Paren)] + row_address(
                tptr,
                s_t,
                r as nat,
            ) + seq![
                punct(","@),
                ident("m"@ + decimal(r as nat)),
                TokV::Close(Delim::Paren),
                punct(";"@),
            ],
    ).flatten()
}

/// `kernel` ends with `stores` just before its closing brace, and `tail`
/// occurs whole before them.
pub open spec fn stores_last(kernel: Seq<TokV>, tail: Seq<TokV>, stores: Seq<TokV>) -> bool {
    &&& kernel.len() >= stores.len() + 1
    &&& kernel.last() == TokV::Close(Delim::Brace)
    &&& kernel.subrange(kernel.len() - 1 - stores.len(), kernel.len() - 1) == stores
    &&& exists|o: int|
        0 <= o && o + tail.len() + stores.len() + 1 <= kernel.len() && #[trigger] kernel.subrange(
            o,
            o + tail.len(),
        ) == tail
}

proof fn lemma_stores_last(kernel: Seq<TokV>, tail: Seq<TokV>, mid: Seq<TokV>, stores: Seq<TokV>)
    requires
        kernel.len() >= tail.len() + mid.len() + stores.len() + 1,
        kernel.last() == TokV::Close(Delim::Brace),
        kernel.subrange(
            kernel.len() - 1 - (tail.len() + mid.len() + stores.len()),
            kernel.len() - 1,
        ) == tail + mid + stores,
    ensures
        stores_last(kernel, tail, stores),
{
    let n = kernel.len() - 1;
    let o = n - (tail.len() + mid.len() + stores.len());
    let w = kernel.subrange(o, n);
    assert(kernel.subrange(n - stores.len(), n) =~= w.subrange(w.len() - stores.len(), w.len() as int));
    assert(w.subrange(w.len() - stores.len(), w.len() as int) =~= stores);
    assert(kernel.subrange(o, o + tail.len()) =~= w.subrange(0, tail.len() as int));
    assert(w.subrange(0, tail.len() as int) =~= tail);
}

proof fn lemma_saves(a: KernelArgsV, i: usize)
    ensures
        masked_save(a, i) == masked_stores(a.tptr, a.s_t, i as nat),
        crate::avx2::emitters::write_outcome_toks(acc_names(i), a.tptr, a.s_t).flatten()
            == plain_stores(a.tptr, a.s_t, i as nat),
{
    let ms = crate::avx2::emitters::mwrite_outcome_toks("mask_m"@, "mask_n"@, acc_names(i), a.tptr, a.s_t);
    let ps = crate::avx2::emitters::write_outcome_toks(acc_names(i), a.tptr, a.s_t);
    let mw = Seq::new(
        i as nat,
        |r: int|
            seq![
                ident("mask_store_ctrl"@),
                TokV::Open(Delim::Paren),
                ident("mask_m"@),
                TokV::Open(Delim::Bracket),
                TokV::Suffixed(r as usize),
                TokV::Close(Delim::Bracket),
                punct(","@),
                ident("mask_n"@),
                punct(","@),
            ] + row_address(a.tptr, a.s_t, r as nat) + seq![
                punct(","@),
                ident("m"@ + decimal(r as nat)),
                TokV::Close(Delim::Paren),
                punct(";"@),
            ],
    );
    let pw = Seq::new(
        i as nat,
        |r: int|
            seq![ident("_mm256_storeu_ps"@), TokV::Open(Delim::Paren)] + row_address(
                a.tptr,
                a.s_t,
                r as nat,
            ) + seq![
                punct(","@),
                ident("m"@ + decimal(r as nat)),
                TokV::Close(Delim::Paren),
                punct(";"@),
            ],
    );
    assert forall|r: int| 0 <= r < i implies ms[r] == mw[r] && ps[r] == pw[r] by {
        lemma_row_address(a.tptr, a.s_t, r as usize);
        assert(ms[r] =~= mw[r]);
        assert(ps[r] =~= pw[r]);
    }
    assert(ms =~= mw);
    assert(ps =~= pw);
}

/// Every kernel ends with the stores of its accumulators, accumulator `r`
/// to row `r` of the target: they come after every statement that updates
/// an accumulator, the whole tail (and, for `L * A`, the triangular blocks)
/// among them, so the stored values include all `p` steps.
pub proof fn lemma_kernels_store_last(a: KernelArgsV, i: usize, k: usize)
    ensures
        stores_last(
            mult_alligned_toks(a, i, k),
            tail_toks(
                None,
                acc_names(i),
                operand_names(k),
                a.xptr,
                a.yptr,
                a.s_x,
                a.s_y,
                a.p,
                false,
                halvings(tail_start(k as nat)),
            ).flatten(),
            plain_stores(a.tptr, a.s_t, i as nat),
        ),
        stores_last(mult_unalligned_toks(a, i, k), masked_tail(a, i, k), masked_stores(a.tptr, a.s_t, i as nat)),
        stores_last(lmult_lower_tri_toks(a, i, k), masked_tail(a, i, k), masked_stores(a.tptr, a.s_t, i as nat)),
        stores_last(lmult_upper_tri_toks(a, i, k), masked_tail(a, i, k), masked_stores(a.tptr, a.s_t, i as nat)),
        stores_last(rmult_lower_tri_toks(a, i, k), masked_tail(a, i, k), masked_stores(a.tptr, a.s_t, i as nat)),
        stores_last(rmult_upper_tri_toks(a, i, k), masked_tail(a, i, k), masked_stores(a.tptr, a.s_t, i as nat)),
{
    lemma_saves(a, i);
    lemma_aligned_stores_last(a, i, k);
    lemma_unaligned_stores_last(a, i, k);
    lemma_lower_left_stores_last(a, i, k);
    lemma_upper_left_stores_last(a, i, k);
    lemma_lower_right_stores_last(a, i, k);
    lemma_upper_right_stores_last(a, i, k);
}

proof fn lemma_aligned_stores_last(a: KernelArgsV, i: usize, k: usize)
    ensures
        stores_last(
            mult_alligned_toks(a, i, k),
            tail_toks(
                None,
                acc_names(i),
                operand_names(k),
                a.xptr,
                a.yptr,
                a.s_x,
                a.s_y,
                a.p,
                false,
                halvings(tail_start(k as nat)),
            ).flatten(),
            crate::avx2::emitters::write_outcome_toks(acc_names(i), a.tptr, a.s_t).flatten(),
        ),
{
    let e = Seq::<TokV>::empty();
    let at = tail_toks(
        None,
        acc_names(i),
        operand_names(k),
        a.xptr,
        a.yptr,
        a.s_x,
        a.s_y,
        a.p,
        false,
        halvings(tail_start(k as nat)),
    ).flatten();
    let ps = crate::avx2::emitters::write_outcome_toks(acc_names(i), a.tptr, a.s_t).flatten();
    let kk = mult_alligned_toks(a, i, k);
    assert(kk.subrange(kk.len() - 1 - (at.len() + e.len() + ps.len()), kk.len() - 1) =~= at + e + ps);
    lemma_stores_last(kk, at, e, ps);
}

proof fn lemma_unaligned_stores_last(a: KernelArgsV, i: usize, k: usize)
    ensures
        stores_last(mult_unalligned_toks(a, i, k), masked_tail(a, i, k), masked_save(a, i)),
{
    let e = Seq::<TokV>::empty();
    let t = masked_tail(a, i, k);
    let ms = masked_save(a, i);
    let kk = mult_unalligned_toks(a, i, k);
    assert(kk.subrange(kk.len() - 1 - (t.len() + e.len() + ms.len()), kk.len() - 1) =~= t + e + ms);
    lemma_stores_last(kk, t, e, ms);
}

proof fn lemma_lower_left_stores_last(a: KernelArgsV, i: usize, k: usize)
    ensures
        stores_last(lmult_lower_tri_toks(a, i, k), masked_tail(a, i, k), masked_save(a, i)),
{
    let e = Seq::new(
        i as nat,
        |r: int|
            lowtri_block(
                "mask_n"@,
                acc_names(i),
                a.xptr,
                a.yptr,
                a.s_x,
                a.s_y,
                operand_names(k)[0],
                i as int,
                r,
            ),
    ).flatten();
    let t = masked_tail(a, i, k);
    let ms = masked_save(a, i);
    let kk = lmult_lower_tri_toks(a, i, k);
    assert(kk.subrange(kk.len() - 1 - (t.len() + e.len() + ms.len()), kk.len() - 1) =~= t + e + ms);
    lemma_stores_last(kk, t, e, ms);
}

proof fn lemma_upper_left_stores_last(a: KernelArgsV, i: usize, k: usize)
    ensures
        stores_last(lmult_upper_tri_toks(a, i, k), masked_tail(a, i, k), masked_save(a, i)),
{
    let e = Seq::<TokV>::empty();
    let t = masked_tail(a, i, k);
    let ms = masked_save(a, i);
    let kk = lmult_upper_tri_toks(a, i, k);
    assert(kk.subrange(kk.len() - 1 - (t.len() + e.len() + ms.len()), kk.len() - 1) =~= t + e + ms);
    lemma_stores_last(kk, t, e, ms);
}

proof fn lemma_lower_right_stores_last(a: KernelArgsV, i: usize, k: usize)
    ensures
        stores_last(rmult_lower_tri_toks(a, i, k), masked_tail(a, i, k), masked_save(a, i)),
{
    let e = Seq::<TokV>::empty();
    let t = masked_tail(a, i, k);
    let ms = masked_save(a, i);
    let kk = rmult_lower_tri_toks(a, i, k);
    assert(kk.subrange(kk.len() - 1 - (t.len() + e.len() + ms.len()), kk.len() - 1) =~= t + e + ms);
    lemma_stores_last(kk, t, e, ms);
}

proof fn lemma_upper_right_stores_last(a: KernelArgsV, i: usize, k: usize)
    ensures
        stores_last(rmult_upper_tri_toks(a, i, k), masked_tail(a, i, k), masked_save(a, i)),
{
    let e = Seq::<TokV>::empty();
    let t = masked_tail(a, i, k);
    let ms = masked_save(a, i);
    let kk = rmult_upper_tri_toks(a, i, k);
    assert(kk.subrange(kk.len() - 1 - (t.len() + e.len() + ms.len()), kk.len() - 1) =~= t + e + ms);
    lemma_stores_last(kk, t, e, ms);
}

/// `fma_accum!(#acc, #xptr.add(#idx * #s_x + #bdx), #b);`: adds the product
/// of `b` and the element in row `idx`, column `bdx` of the left operand into
/// `acc`.
pub open spec fn element_fma(
    acc: Seq<char>,
    xptr: Seq<char>,
    s_x: Seq<char>,
    idx: nat,
    bdx: nat,
    b: Seq<char>,
) -> Seq<TokV> {
    seq![
        ident("fma_accum"@),
        punct("!"@),
        TokV::Open(Delim::Paren),
        ident(acc),
        punct(","@),
        TokV::Expr(xptr),
        punct("."@),
        ident("add"@),
        TokV::Open(Delim::Paren),
        TokV::Suffixed(idx as usize),
        punct("*"@),
        TokV::Expr(s_x),
        punct("+"@),
        TokV::Suffixed(bdx as usize),
        TokV::Close(Delim::Paren),
        punct(","@),
        ident(b),
        TokV::Close(Delim::Paren),
        punct(";"@),
    ]
}

proof fn lemma_grid_index<A>(rows: nat, cols: nat, f: spec_fn(int, int) -> A, r: int, c: int)
    requires
        0 <= r < rows,
        0 <= c < cols,
    ensures
        grid(rows, cols, f).len() == rows * cols,
        r * cols + c < rows * cols,
        grid(rows, cols, f)[r * cols + c] == f(r, c),
    decreases rows,
{
    let below = (rows - 1) as nat;
    lemma_grid_len(rows, cols, f);
    lemma_grid_len(below, cols, f);
    lemma_grid_push(below, cols, f);
    assert(rows * cols == below * cols + cols) by (nonlinear_arith)
        requires
            rows >= 1,
            below == rows - 1,
    ;
    if r < below {
        lemma_grid_index(below, cols, f, r, c);
    } else {
        assert(r * cols == below * cols);
    }
}

/// The product step of accumulator `idx` with operand `bdx` reads the
/// element in row `idx`, column `bdx` of the left operand; in the aligned
/// panel kernel, the products before reordering are those of every operand
/// `b{bdx}` with every accumulator `r{idx}`, operand after operand.
pub proof fn lemma_products_read_elements(a: KernelArgsV, i: usize, k: usize)
    ensures
        forall|tids: Seq<Seq<char>>, yids: Seq<Seq<char>>, xptr: Seq<char>, s_x: Seq<char>, bdx: int, idx: int|
            0 <= bdx <= usize::MAX && 0 <= idx <= usize::MAX ==> #[trigger] fma_product_elem(
                tids,
                yids,
                xptr,
                s_x,
                bdx,
                idx,
            ) == element_fma(tids[idx], xptr, s_x, idx as nat, bdx as nat, yids[bdx]),
        kernel_products(a, i, k).len() == k * i,
        forall|bdx: int, idx: int|
            0 <= bdx < k && 0 <= idx < i ==> #[trigger] kernel_products(a, i, k)[bdx * i + idx]
                == element_fma(
                "r"@ + decimal(idx as nat),
                a.xptr,
                a.s_x,
                idx as nat,
                bdx as nat,
                "b"@ + decimal(bdx as nat),
            ),
{
    assert forall|tids: Seq<Seq<char>>, yids: Seq<Seq<char>>, xptr: Seq<char>, s_x: Seq<char>, bdx: int, idx: int|
        0 <= bdx <= usize::MAX && 0 <= idx <= usize::MAX implies #[trigger] fma_product_elem(
            tids,
            yids,
            xptr,
            s_x,
            bdx,
            idx,
        ) == element_fma(tids[idx], xptr, s_x, idx as nat, bdx as nat, yids[bdx]) by {
        assert(fma_product_elem(tids, yids, xptr, s_x, bdx, idx) =~= element_fma(
            tids[idx],
            xptr,
            s_x,
            idx as nat,
            bdx as nat,
            yids[bdx],
        ));
    }
    let f = |bdx: int, idx: int|
        fma_product_elem(
            crate::avx2::emitters::numbered_names("r"@, i as nat),
            crate::avx2::emitters::numbered_names("b"@, k as nat),
            a.xptr,
            a.s_x,
            bdx,
            idx,
        );
    lemma_grid_len(k as nat, i as nat, f);
    assert forall|bdx: int, idx: int| 0 <= bdx < k && 0 <= idx < i implies #[trigger] kernel_products(
        a,
        i,
        k,
    )[bdx * i + idx] == element_fma(
        "r"@ + decimal(idx as nat),
        a.xptr,
        a.s_x,
        idx as nat,
        bdx as nat,
        "b"@ + decimal(bdx as nat),
    ) by {
        lemma_grid_index(k as nat, i as nat, f, bdx, idx);
        assert(kernel_products(a, i, k) == grid(k as nat, i as nat, f));
        assert(f(bdx, idx) =~= element_fma(
            "r"@ + decimal(idx as nat),
            a.xptr,
            a.s_x,
            idx as nat,
            bdx as nat,
            "b"@ + decimal(bdx as nat),
        ));
    }
}

/// The element in row `row`, column `col` of the matrix at `ptr` with row
/// stride `stride`, with as few operations as possible: `ptr`,
/// `ptr.add(col)`, `ptr.add(stride)`, `ptr.add(stride * row)`,
/// `ptr.add(stride + col)` or `ptr.add(stride * row + col)`.
pub open spec fn element_address(ptr: Seq<char>, stride: Seq<char>, row: nat, col: nat) -> Seq<TokV> {
    let head = seq![TokV::Expr(ptr), punct("."@), ident("add"@), TokV::Open(Delim::Paren)];
    let close = seq![TokV::Close(Delim::Paren)];
    if row == 0 && col == 0 {
        seq![TokV::Expr(ptr)]
    } else if row == 0 {
        head + seq![TokV::Suffixed(col as usize)] + close
    } else if row == 1 && col == 0 {
        head + seq![TokV::Expr(stride)] + close
    } else if col == 0 {
        head + seq![TokV::Expr(stride), punct("*"@), TokV::Suffixed(row as usize)] + close
    } else if row == 1 {
        head + seq![TokV::Expr(stride), punct("+"@), TokV::Suffixed(col as usize)] + close
    } else {
        head + seq![
            TokV::Expr(stride),
            punct("*"@),
            TokV::Suffixed(row as usize),
            punct("+"@),
            TokV::Suffixed(col as usize),
        ] + close
    }
}

proof fn lemma_element_address(ptr: Seq<char>, stride: Seq<char>, row: usize, col: usize)
    ensures
        index_matrix_toks(ptr, stride, row, col) == element_address(ptr, stride, row as nat, col as nat),
{
    assert(index_matrix_toks(ptr, stride, row, col) =~= element_address(ptr, stride, row as nat, col as nat));
}

/// `#acc = fma_accum(#acc, #addr, #b);`, or under a mask
/// `#acc = cfma_accum(#mask[#idx], #acc, #addr, #b);`.
pub open spec fn product_statement(
    mask: Option<Seq<char>>,
    acc: Seq<char>,
    idx: nat,
    addr: Seq<TokV>,
    b: Seq<char>,
) -> Seq<TokV> {
    let args = seq![ident(acc), punct(","@)] + addr + seq![punct(","@), ident(b)];
    seq![ident(acc), punct("="@)] + match mask {
        None => seq![ident("fma_accum"@), TokV::Open(Delim::Paren)] + args,
        Some(m) => seq![
            ident("cfma_accum"@),
            TokV::Open(Delim::Paren),
            ident(m),
            TokV::Open(Delim::Bracket),
            TokV::Suffixed(idx as usize),
            TokV::Close(Delim::Bracket),
            punct(","@),
        ] + args,
    } + seq![TokV::Close(Delim::Paren), punct(";"@)]
}

/// The product steps come operand after operand, one per accumulator; the
/// step of accumulator `idx` with operand `bdx` adds into `tids[idx]` the
/// product of `yids[bdx]` and the left operand's element in row `idx`,
/// column `bdx` (row `bdx`, column `idx` when the left operand is read
/// transposed), under lane `idx` of the mask when there is one.
pub proof fn lemma_product_steps_read_elements(
    mask: Option<Seq<char>>,
    tids: Seq<Seq<char>>,
    yids: Seq<Seq<char>>,
    xptr: Seq<char>,
    s_x: Seq<char>,
    transposed: bool,
    rows: nat,
)
    requires
        tids.len() <= usize::MAX,
        rows <= usize::MAX,
    ensures
        product_toks(mask, tids, yids, xptr, s_x, transposed, rows).len() == rows * tids.len(),
        forall|bdx: int, idx: int|
            0 <= bdx < rows && 0 <= idx < tids.len() ==> #[trigger] product_toks(
                mask,
                tids,
                yids,
                xptr,
                s_x,
                transposed,
                rows,
            )[bdx * tids.len() + idx] == product_statement(
                mask,
                tids[idx],
                idx as nat,
                if transposed {
                    element_address(xptr, s_x, bdx as nat, idx as nat)
                } else {
                    element_address(xptr, s_x, idx as nat, bdx as nat)
                },
                yids[bdx],
            ),
{
    let f = |bdx: int, idx: int|
        crate::avx2::emitters::product_elem(mask, tids, yids, xptr, s_x, transposed, bdx, idx);
    lemma_grid_len(rows, tids.len(), f);
    assert forall|bdx: int, idx: int| 0 <= bdx < rows && 0 <= idx < tids.len() implies #[trigger] product_toks(
        mask,
        tids,
        yids,
        xptr,
        s_x,
        transposed,
        rows,
    )[bdx * tids.len() + idx] == product_statement(
        mask,
        tids[idx],
        idx as nat,
        if transposed {
            element_address(xptr, s_x, bdx as nat, idx as nat)
        } else {
            element_address(xptr, s_x, idx as nat, bdx as nat)
        },
        yids[bdx],
    ) by {
        lemma_grid_index(rows, tids.len(), f, bdx, idx);
        lemma_product_step(mask, tids, yids, xptr, s_x, transposed, bdx, idx);
    }
}

proof fn lemma_product_step(
    mask: Option<Seq<char>>,
    tids: Seq<Seq<char>>,
    yids: Seq<Seq<char>>,
    xptr: Seq<char>,
    s_x: Seq<char>,
    transposed: bool,
    bdx: int,
    idx: int,
)
    requires
        0 <= bdx <= usize::MAX,
        0 <= idx <= usize::MAX,
    ensures
        crate::avx2::emitters::product_elem(mask, tids, yids, xptr, s_x, transposed, bdx, idx)
            == product_statement(
            mask,
            tids[idx],
            idx as nat,
            if transposed {
                element_address(xptr, s_x, bdx as nat, idx as nat)
            } else {
                element_address(xptr, s_x, idx as nat, bdx as nat)
            },
            yids[bdx],
        ),
{
    let addr = if transposed {
        element_address(xptr, s_x, bdx as nat, idx as nat)
    } else {
        element_address(xptr, s_x, idx as nat, bdx as nat)
    };
    assert(crate::avx2::emitters::product_addr(xptr, s_x, transposed, bdx, idx) == addr) by {
        if transposed {
            lemma_element_address(xptr, s_x, bdx as usize, idx as usize);
        } else {
            lemma_element_address(xptr, s_x, idx as usize, bdx as usize);
        }
    }
    let st = crate::avx2::emitters::product_elem(mask, tids, yids, xptr, s_x, transposed, bdx, idx);
    match mask {
        None => {
            assert(st =~= product_statement(mask, tids[idx], idx as nat, addr, yids[bdx]));
        },
        Some(m) => {
            assert(st =~= product_statement(mask, tids[idx], idx as nat, addr, yids[bdx]));
        },
    }
}

/// `let mut #v = _mm256_loadu_ps(#addr);`, or under a mask
/// `let mut #v = mask_load(#mask, #addr);`.
pub open spec fn vector_load(mask: Option<Seq<char>>, v: Seq<char>, addr: Seq<TokV>) -> Seq<TokV> {
    seq![ident("let"@), ident("mut"@), ident(v), punct("="@)] + match mask {
        None => seq![ident("_mm256_loadu_ps"@), TokV::Open(Delim::Paren)],
        Some(m) => seq![ident("mask_load"@), TokV::Open(Delim::Paren), ident(m), punct(","@)],
    } + addr + seq![TokV::Close(Delim::Paren), punct(";"@)]
}

/// `_mm256_storeu_ps(#addr, #v);`, or under masks
/// `mask_store_ctrl(#mask_m[#idx], #mask_n, #addr, #v);`.
pub open spec fn vector_store(
    masks: Option<(Seq<char>, Seq<char>)>,
    idx: nat,
    v: Seq<char>,
    addr: Seq<TokV>,
) -> Seq<TokV> {
    (match masks {
        None => seq![ident("_mm256_storeu_ps"@), TokV::Open(Delim::Paren)],
        Some((m, n)) => seq![
            ident("mask_store_ctrl"@),
            TokV::Open(Delim::Paren),
            ident(m),
            TokV::Open(Delim::Bracket),
            TokV::Suffixed(idx as usize),
            TokV::Close(Delim::Bracket),
            punct(","@),
            ident(n),
            punct(","@),
        ],
    }) + addr + seq![punct(","@), ident(v), TokV::Close(Delim::Paren), punct(";"@)]
}

/// `#ptr.add(#idx * #stride)`: the start of row `idx`, as the first
/// generation of emitters writes it.
pub open spec fn scaled_row_address(ptr: Seq<char>, stride: Seq<char>, idx: nat) -> Seq<TokV> {
    seq![
        TokV::Expr(ptr),
        punct("."@),
        ident("add"@),
        TokV::Open(Delim::Paren),
        TokV::Suffixed(idx as usize),
        punct("*"@),
        TokV::Expr(stride),
        TokV::Close(Delim::Paren),
    ]
}

/// Statement `idx` of each load and store sequence moves vector `vars[idx]`
/// from or to row `idx` of the matrix at `ptr`.
pub open spec fn moves_row(
    mask: Seq<char>,
    mask_m: Seq<char>,
    vars: Seq<Seq<char>>,
    ptr: Seq<char>,
    stride: Seq<char>,
    idx: int,
) -> bool {
    &&& load_vecs_toks(vars, ptr, stride)[idx] == vector_load(
        None,
        vars[idx],
        row_address(ptr, stride, idx as nat),
    )
    &&& mload_vecs_toks(mask, vars, ptr, stride)[idx] == vector_load(
        Some(mask),
        vars[idx],
        row_address(ptr, stride, idx as nat),
    )
    &&& write_outcome_toks(vars, ptr, stride)[idx] == vector_store(
        None,
        idx as nat,
        vars[idx],
        row_address(ptr, stride, idx as nat),
    )
    &&& mwrite_outcome_toks(mask_m, mask, vars, ptr, stride)[idx] == vector_store(
        Some((mask_m, mask)),
        idx as nat,
        vars[idx],
        row_address(ptr, stride, idx as nat),
    )
    &&& crate::avx2::common::load_tvecs_toks(vars, ptr, stride)[idx] == vector_load(
        None,
        vars[idx],
        scaled_row_address(ptr, stride, idx as nat),
    )
    &&& crate::avx2::common::write_outcome_toks(vars, ptr, stride)[idx] == vector_store(
        None,
        idx as nat,
        vars[idx],
        scaled_row_address(ptr, stride, idx as nat),
    )
    &&& crate::avx2::common::load_yvecs_toks(vars, ptr, stride)[idx] == seq![
        ident("let"@),
        ident(vars[idx]),
        punct("="@),
        ident("_mm256_loadu_ps"@),
        TokV::Open(Delim::Paren),
        TokV::Expr(ptr),
        punct("+"@),
        TokV::Suffixed(idx as usize),
        punct("*"@),
        TokV::Expr(stride),
        TokV::Close(Delim::Paren),
        punct(";"@),
    ]
}

/// Vector `vars[idx]` is loaded from, and accumulator `tids[idx]` stored to,
/// row `idx` of its matrix, one statement per vector, in order; the first
/// generation's operand `yids[bdx]` is read at `yptr + bdx * s_y`.
pub proof fn lemma_vectors_move_rows(
    mask: Seq<char>,
    mask_m: Seq<char>,
    vars: Seq<Seq<char>>,
    ptr: Seq<char>,
    stride: Seq<char>,
)
    requires
        vars.len() <= usize::MAX,
    ensures
        load_vecs_toks(vars, ptr, stride).len() == vars.len(),
        mload_vecs_toks(mask, vars, ptr, stride).len() == vars.len(),
        write_outcome_toks(vars, ptr, stride).len() == vars.len(),
        mwrite_outcome_toks(mask_m, mask, vars, ptr, stride).len() == vars.len(),
        crate::avx2::common::load_tvecs_toks(vars, ptr, stride).len() == vars.len(),
        crate::avx2::common::write_outcome_toks(vars, ptr, stride).len() == vars.len(),
        crate::avx2::common::load_yvecs_toks(vars, ptr, stride).len() == vars.len(),
        forall|idx: int|
            0 <= idx < vars.len() ==> #[trigger] moves_row(mask, mask_m, vars, ptr, stride, idx),
{
    assert forall|idx: int| 0 <= idx < vars.len() implies #[trigger] moves_row(
        mask,
        mask_m,
        vars,
        ptr,
        stride,
        idx,
    ) by {
        lemma_moves_row(mask, mask_m, vars, ptr, stride, idx);
    }
}

proof fn lemma_moves_row(
    mask: Seq<char>,
    mask_m: Seq<char>,
    vars: Seq<Seq<char>>,
    ptr: Seq<char>,
    stride: Seq<char>,
    idx: int,
)
    requires
        0 <= idx < vars.len() <= usize::MAX,
    ensures
        moves_row(mask, mask_m, vars, ptr, stride, idx),
{
    lemma_row_address(ptr, stride, idx as usize);
    let a = row_address(ptr, stride, idx as nat);
    let sa = scaled_row_address(ptr, stride, idx as nat);
    assert(load_vecs_toks(vars, ptr, stride)[idx] =~= vector_load(None, vars[idx], a));
    assert(mload_vecs_toks(mask, vars, ptr, stride)[idx] =~= vector_load(Some(mask), vars[idx], a));
    assert(write_outcome_toks(vars, ptr, stride)[idx] =~= vector_store(None, idx as nat, vars[idx], a));
    assert(mwrite_outcome_toks(mask_m, mask, vars, ptr, stride)[idx] =~= vector_store(
        Some((mask_m, mask)),
        idx as nat,
        vars[idx],
        a,
    ));
    assert(crate::avx2::common::load_tvecs_toks(vars, ptr, stride)[idx] =~= vector_load(None, vars[idx], sa));
    assert(crate::avx2::common::write_outcome_toks(vars, ptr, stride)[idx] =~= vector_store(
        None,
        idx as nat,
        vars[idx],
        sa,
    ));
    assert(crate::avx2::common::load_yvecs_toks(vars, ptr, stride)[idx] =~= seq![
        ident("let"@),
        ident(vars[idx]),
        punct("="@),
        ident("_mm256_loadu_ps"@),
        TokV::Open(Delim::Paren),
        TokV::Expr(ptr),
        punct("+"@),
        TokV::Suffixed(idx as usize),
        punct("*"@),
        TokV::Expr(stride),
        TokV::Close(Delim::Paren),
        punct(";"@),
    ]);
}

/// The accumulator mask of a tail's masks (`mask_m`, `mask_n`).
pub open spec fn row_mask(masks: Option<(Seq<char>, Seq<char>)>) -> Option<Seq<char>> {
    match masks {
        None => None,
        Some((m, _)) => Some(m),
    }
}

/// The tail block of `q`: `if q & p != 0 { .. }` that loads operands
/// `0 .. q` from their rows, adds their products (operand after operand)
/// into the accumulators, and moves the left operand pointer `q` columns on
/// (`q` rows when read transposed) and the right one `q` rows on. Unmasked,
/// the variables `xptr` and `yptr` are set at the end; masked, the operand
/// pointer moves right after the loads and the left one at the end.
pub open spec fn tail_block_shape(
    masks: Option<(Seq<char>, Seq<char>)>,
    tids: Seq<Seq<char>>,
    yids: Seq<Seq<char>>,
    xptr: Seq<char>,
    yptr: Seq<char>,
    s_x: Seq<char>,
    s_y: Seq<char>,
    p: Seq<char>,
    transposed: bool,
    q: nat,
) -> Seq<TokV> {
    let loads = row_loads(column_mask(masks), yids, yptr, s_y, q);
    let prods = product_toks(row_mask(masks), tids, yids, xptr, s_x, transposed, q).flatten();
    let nx = if transposed {
        element_address(xptr, s_x, q, 0)
    } else {
        element_address(xptr, s_x, 0, q)
    };
    let ny = row_address(yptr, s_y, q);
    let guard = seq![
        ident("if"@),
        TokV::Suffixed(q as usize),
        punct("&"@),
        TokV::Expr(p),
        punct("!="@),
        TokV::Unsuffixed(0),
        TokV::Open(Delim::Brace),
    ];
    guard + match masks {
        None => loads + prods + seq![ident("xptr"@), punct("="@)] + nx + seq![
            punct(";"@),
            ident("yptr"@),
            punct("="@),
        ] + ny + seq![punct(";"@)],
        Some(_) => loads + seq![TokV::Expr(yptr), punct("="@)] + ny + seq![punct(";"@)] + prods
            + seq![TokV::Expr(xptr), punct("="@)] + nx + seq![punct(";"@)],
    } + seq![TokV::Close(Delim::Brace)]
}

#[verifier::rlimit(60)]
#[verifier::spinoff_prover]
proof fn lemma_tail_block_shape(
    masks: Option<(Seq<char>, Seq<char>)>,
    tids: Seq<Seq<char>>,
    yids: Seq<Seq<char>>,
    xptr: Seq<char>,
    yptr: Seq<char>,
    s_x: Seq<char>,
    s_y: Seq<char>,
    p: Seq<char>,
    transposed: bool,
    q: nat,
)
    requires
        q <= usize::MAX,
    ensures
        crate::avx2::emitters::tail_block(masks, tids, yids, xptr, yptr, s_x, s_y, p, transposed, q)
            == tail_block_shape(masks, tids, yids, xptr, yptr, s_x, s_y, p, transposed, q),
{
    let loads = row_loads(column_mask(masks), yids, yptr, s_y, q);
    let prods = product_toks(row_mask(masks), tids, yids, xptr, s_x, transposed, q).flatten();
    let nx = if transposed {
        element_address(xptr, s_x, q, 0)
    } else {
        element_address(xptr, s_x, 0, q)
    };
    let ny = row_address(yptr, s_y, q);
    lemma_tail_loads_rows(column_mask(masks), yids, yptr, s_y, q);
    lemma_row_address(yptr, s_y, q as usize);
    assert(crate::avx2::emitters::tail_next_x(xptr, s_x, transposed, q) == nx) by {
        if transposed {
            lemma_element_address(xptr, s_x, q as usize, 0);
        } else {
            lemma_element_address(xptr, s_x, 0, q as usize);
        }
    }
    let body = tail_body(masks, tids, yids, xptr, yptr, s_x, s_y, transposed, q);
    let mid = match masks {
        None => loads + prods + seq![ident("xptr"@), punct("="@)] + nx + seq![
            punct(";"@),
            ident("yptr"@),
            punct("="@),
        ] + ny + seq![punct(";"@)],
        Some(_) => loads + seq![TokV::Expr(yptr), punct("="@)] + ny + seq![punct(";"@)] + prods
            + seq![TokV::Expr(xptr), punct("="@)] + nx + seq![punct(";"@)],
    };
    match masks {
        None => {
            assert(body =~= mid);
        },
        Some(_) => {
            assert(body =~= mid);
        },
    }
    assert(crate::avx2::emitters::tail_block(masks, tids, yids, xptr, yptr, s_x, s_y, p, transposed, q)
        =~= tail_block_shape(masks, tids, yids, xptr, yptr, s_x, s_y, p, transposed, q));
}

/// Every tail block has the shape of `tail_block_shape`: with the product
/// steps of `lemma_product_steps_read_elements`, block `q` multiplies
/// operand row `j` by column `j` of the left operand (`j < q`), then moves
/// both operands past what it used.
pub proof fn lemma_tail_blocks_shape(
    masks: Option<(Seq<char>, Seq<char>)>,
    tids: Seq<Seq<char>>,
    yids: Seq<Seq<char>>,
    xptr: Seq<char>,
    yptr: Seq<char>,
    s_x: Seq<char>,
    s_y: Seq<char>,
    p: Seq<char>,
    transposed: bool,
    qs: Seq<nat>,
)
    requires
        forall|n: int| 0 <= n < qs.len() ==> #[trigger] qs[n] <= usize::MAX,
    ensures
        forall|n: int|
            0 <= n < qs.len() ==> #[trigger] tail_toks(masks, tids, yids, xptr, yptr, s_x, s_y, p, transposed, qs)[n]
                == tail_block_shape(masks, tids, yids, xptr, yptr, s_x, s_y, p, transposed, qs[n]),
{
    assert forall|n: int| 0 <= n < qs.len() implies #[trigger] tail_toks(
        masks,
        tids,
        yids,
        xptr,
        yptr,
        s_x,
        s_y,
        p,
        transposed,
        qs,
    )[n] == tail_block_shape(masks, tids, yids, xptr, yptr, s_x, s_y, p, transposed, qs[n]) by {
        lemma_tail_block_shape(masks, tids, yids, xptr, yptr, s_x, s_y, p, transposed, qs[n]);
    }
}

/// For each accumulator `tids[r]`, `lo <= r < hi`, in order: add the
/// product of `b` and the left operand's element in row `r`, column 0.
pub open spec fn column_updates(
    tids: Seq<Seq<char>>,
    xptr: Seq<char>,
    s_x: Seq<char>,
    b: Seq<char>,
    lo: int,
    hi: int,
) -> Seq<TokV> {
    Seq::new(
        (hi - lo) as nat,
        |c: int| product_statement(None, tids[lo + c], (lo + c) as nat, element_address(xptr, s_x, (lo + c) as nat, 0), b),
    ).flatten()
}

/// A triangular block: `{ let #b = mask_load(#mask_n, #yptr); .. }` that
/// adds column 0 of the left operand, rows `lo .. hi`, times `b` into those
/// accumulators, and then, when `step`, moves `xptr` a column and `yptr` a
/// row on.
pub open spec fn triangular_block_shape(
    mask_n: Seq<char>,
    tids: Seq<Seq<char>>,
    xptr: Seq<char>,
    yptr: Seq<char>,
    s_x: Seq<char>,
    s_y: Seq<char>,
    b: Seq<char>,
    lo: int,
    hi: int,
    step: bool,
) -> Seq<TokV> {
    seq![
        TokV::Open(Delim::Brace),
        ident("let"@),
        ident(b),
        punct("="@),
        ident("mask_load"@),
        TokV::Open(Delim::Paren),
        ident(mask_n),
        punct(","@),
        TokV::Expr(yptr),
        TokV::Close(Delim::Paren),
        punct(";"@),
    ] + column_updates(tids, xptr, s_x, b, lo, hi) + (if step {
        next_column_and_row(xptr, yptr, s_y)
    } else {
        Seq::empty()
    }) + seq![TokV::Close(Delim::Brace)]
}

proof fn lemma_column_updates(
    tids: Seq<Seq<char>>,
    xptr: Seq<char>,
    s_x: Seq<char>,
    b: Seq<char>,
    lo: int,
    hi: int,
)
    requires
        0 <= lo <= hi <= usize::MAX + 1,
    ensures
        crate::avx2::emitters::col_fmas(None, tids, xptr, s_x, b, lo, hi).flatten() == column_updates(
            tids,
            xptr,
            s_x,
            b,
            lo,
            hi,
        ),
{
    let a = crate::avx2::emitters::col_fmas(None, tids, xptr, s_x, b, lo, hi);
    let w = Seq::new(
        (hi - lo) as nat,
        |c: int| product_statement(None, tids[lo + c], (lo + c) as nat, element_address(xptr, s_x, (lo + c) as nat, 0), b),
    );
    assert forall|c: int| 0 <= c < hi - lo implies a[c] == w[c] by {
        lemma_element_address(xptr, s_x, (lo + c) as usize, 0);
        assert(a[c] =~= w[c]);
    }
    assert(a =~= w);
}

/// Block `i` of an upper-triangular left operand adds column `i` of it
/// (rows `0 ..= i`) into the accumulators `0 ..= i` and moves both pointers
/// on; block `i` of a lower-triangular one (of `m`) adds rows `i .. m` into
/// the accumulators `i .. m`, and moves the pointers on unless it is the
/// last.
pub proof fn lemma_triangular_blocks_shape(
    mask_n: Seq<char>,
    tids: Seq<Seq<char>>,
    xptr: Seq<char>,
    yptr: Seq<char>,
    s_x: Seq<char>,
    s_y: Seq<char>,
    b: Seq<char>,
    m: int,
)
    requires
        m <= usize::MAX,
    ensures
        forall|i: int|
            0 <= i < m ==> #[trigger] uptri_block(mask_n, tids, xptr, yptr, s_x, s_y, b, i)
                == triangular_block_shape(mask_n, tids, xptr, yptr, s_x, s_y, b, 0, i + 1, true),
        forall|i: int|
            0 <= i < m ==> #[trigger] lowtri_block(mask_n, tids, xptr, yptr, s_x, s_y, b, m, i)
                == triangular_block_shape(mask_n, tids, xptr, yptr, s_x, s_y, b, i, m, i + 1 < m),
{
    assert forall|i: int| 0 <= i < m implies #[trigger] uptri_block(
        mask_n,
        tids,
        xptr,
        yptr,
        s_x,
        s_y,
        b,
        i,
    ) == triangular_block_shape(mask_n, tids, xptr, yptr, s_x, s_y, b, 0, i + 1, true) by {
        lemma_column_updates(tids, xptr, s_x, b, 0, i + 1);
        lemma_row_address(yptr, s_y, 1);
        assert(uptri_block(mask_n, tids, xptr, yptr, s_x, s_y, b, i) =~= triangular_block_shape(
            mask_n,
            tids,
            xptr,
            yptr,
            s_x,
            s_y,
            b,
            0,
            i + 1,
            true,
        ));
    }
    assert forall|i: int| 0 <= i < m implies #[trigger] lowtri_block(
        mask_n,
        tids,
        xptr,
        yptr,
        s_x,
        s_y,
        b,
        m,
        i,
    ) == triangular_block_shape(mask_n, tids, xptr, yptr, s_x, s_y, b, i, m, i + 1 < m) by {
        lemma_column_updates(tids, xptr, s_x, b, i, m);
        lemma_row_address(yptr, s_y, 1);
        assert(lowtri_block(mask_n, tids, xptr, yptr, s_x, s_y, b, m, i) =~= triangular_block_shape(
            mask_n,
            tids,
            xptr,
            yptr,
            s_x,
            s_y,
            b,
            i,
            m,
            i + 1 < m,
        ));
    }
}

/// In each step of the aligned panel kernel the reordered products still
/// come operand after operand: position `j` of operand `c`'s block adds into
/// accumulator `r{t}`, `t = spread_order(i)[j]`, the product of `b{c}` and
/// the left operand's element in row `t`, column `c`. Each block holds every
/// accumulator once, so each accumulator receives its products in operand
/// order, as before the reordering.
pub proof fn lemma_reordered_products(a: KernelArgsV, i: usize, k: usize)
    ensures
        is_permutation(spread_order(i as nat), i as int),
        forall|c: int, j: int|
            0 <= c < k && 0 <= j < i ==> #[trigger] blockwise(
                blockwise(kernel_products(a, i, k), k as nat, i as nat, riffle_order(i as nat)),
                k as nat,
                i as nat,
                interleave_order(i as nat),
            )[c * i + j] == element_fma(
                "r"@ + decimal(spread_order(i as nat)[j] as nat),
                a.xptr,
                a.s_x,
                spread_order(i as nat)[j] as nat,
                c as nat,
                "b"@ + decimal(c as nat),
            ),
{
    lemma_products_read_elements(a, i, k);
    lemma_spread_within_blocks(kernel_products(a, i, k), k as nat, i as nat);
    assert forall|c: int, j: int| 0 <= c < k && 0 <= j < i implies #[trigger] blockwise(
        blockwise(kernel_products(a, i, k), k as nat, i as nat, riffle_order(i as nat)),
        k as nat,
        i as nat,
        interleave_order(i as nat),
    )[c * i + j] == element_fma(
        "r"@ + decimal(spread_order(i as nat)[j] as nat),
        a.xptr,
        a.s_x,
        spread_order(i as nat)[j] as nat,
        c as nat,
        "b"@ + decimal(c as nat),
    ) by {
        let t = spread_order(i as nat)[j];
        assert(0 <= t < i);
        assert(kernel_products(a, i, k)[c * i + t] == element_fma(
            "r"@ + decimal(t as nat),
            a.xptr,
            a.s_x,
            t as nat,
            c as nat,
            "b"@ + decimal(c as nat),
        ));
    }
}

/// `part` occurs whole in `kernel`.
pub open spec fn occurs(kernel: Seq<TokV>, part: Seq<TokV>) -> bool {
    exists|o: int|
        0 <= o && o + part.len() <= kernel.len() && #[trigger] kernel.subrange(o, o + part.len())
            == part
}

/// The loads of operands `b0 .. b{k - 1}`, operand `j` from row `j` of the
/// matrix at `yptr`, under `mask` when there is one.
pub open spec fn operand_rows(mask: Option<Seq<char>>, yptr: Seq<char>, s_y: Seq<char>, k: nat) -> Seq<
    TokV,
> {
    Seq::new(k, |j: int| vector_load(mask, "b"@ + decimal(j as nat), row_address(yptr, s_y, j as nat))).flatten()
}

/// `#ptr = <row k of ptr>;`: the pointer moves `k` rows on.
pub open spec fn move_rows(ptr: Seq<char>, stride: Seq<char>, k: nat) -> Seq<TokV> {
    seq![TokV::Expr(ptr), punct("="@)] + row_address(ptr, stride, k) + seq![punct(";"@)]
}

/// `#ptr = #ptr.add(#k);`: the pointer moves `k` columns on.
pub open spec fn move_columns(ptr: Seq<char>, stride: Seq<char>, k: nat) -> Seq<TokV> {
    seq![TokV::Expr(ptr), punct("="@)] + element_address(ptr, stride, 0, k) + seq![punct(";"@)]
}

/// The main loop of a kernel: `for _ in #range { .. }`, whose steps load
/// the `k` operand rows, add their products into the `i` accumulators
/// (operand after operand, as `lemma_product_steps_read_elements` states),
/// and then make the pointer moves `moves`.
pub open spec fn main_loop(
    range: Seq<TokV>,
    masked: bool,
    a: KernelArgsV,
    i: usize,
    k: usize,
    moves: Seq<TokV>,
) -> Seq<TokV> {
    seq![ident("for"@), ident("_"@), ident("in"@)] + range + seq![TokV::Open(Delim::Brace)]
        + operand_rows(if masked { Some("mask_n"@) } else { None }, a.yptr, a.s_y, k as nat)
        + product_toks(
        if masked {
            Some("mask_m"@)
        } else {
            None
        },
        acc_names(i),
        operand_names(k),
        a.xptr,
        a.s_x,
        false,
        k as nat,
    ).flatten() + moves + seq![TokV::Close(Delim::Brace)]
}

proof fn lemma_operand_rows(yptr: Seq<char>, s_y: Seq<char>, k: usize)
    ensures
        load_vecs_toks(operand_names(k), yptr, s_y).flatten() == operand_rows(None, yptr, s_y, k as nat),
        mload_vecs_toks("mask_n"@, operand_names(k), yptr, s_y).flatten() == operand_rows(
            Some("mask_n"@),
            yptr,
            s_y,
            k as nat,
        ),
{
    let l = load_vecs_toks(operand_names(k), yptr, s_y);
    let ml = mload_vecs_toks("mask_n"@, operand_names(k), yptr, s_y);
    let w = Seq::new(k as nat, |j: int| vector_load(None, "b"@ + decimal(j as nat), row_address(yptr, s_y, j as nat)));
    let mw = Seq::new(
        k as nat,
        |j: int| vector_load(Some("mask_n"@), "b"@ + decimal(j as nat), row_address(yptr, s_y, j as nat)),
    );
    assert forall|j: int| 0 <= j < k implies l[j] == w[j] && ml[j] == mw[j] by {
        lemma_row_address(yptr, s_y, j as usize);
        assert(l[j] =~= w[j]);
        assert(ml[j] =~= mw[j]);
    }
    assert(l =~= w);
    assert(ml =~= mw);
}

proof fn lemma_occurs_before(kernel: Seq<TokV>, part: Seq<TokV>, rest: Seq<TokV>)
    requires
        kernel.len() >= part.len() + rest.len() + 1,
        kernel.subrange(kernel.len() - 1 - (part.len() + rest.len()), kernel.len() - 1) == part + rest,
    ensures
        occurs(kernel, part),
{
    let n = kernel.len() - 1;
    let o = n - (part.len() + rest.len());
    let w = kernel.subrange(o, n);
    assert(kernel.subrange(o, o + part.len()) =~= w.subrange(0, part.len() as int));
    assert(w.subrange(0, part.len() as int) =~= part);
}

/// Each kernel runs its steps in one loop over its range of steps: every
/// step loads the `k` operand rows, adds their products into the
/// accumulators, and moves the pointers on: the aligned kernel moves
/// `yptr` `k` columns and then `k` rows on (over `0..p`), the unaligned one
/// `k` rows and then `k` columns (over `0..p / k`), `L * A` as the aligned
/// one (from `threshold`), `U * A` moves `yptr` `k` rows and `xptr` `k`
/// columns on, and `A * L` and `A * U` move `xptr` `k` columns and `yptr`
/// `k` rows on (all from `threshold`).
pub proof fn lemma_kernels_main_loop(a: KernelArgsV, i: usize, k: usize)
    ensures
        occurs(
            mult_alligned_toks(a, i, k),
            main_loop(
                zero_to(a.p),
                false,
                a,
                i,
                k,
                move_columns(a.yptr, a.s_y, k as nat) + move_rows(a.yptr, a.s_y, k as nat),
            ),
        ),
        occurs(
            mult_unalligned_toks(a, i, k),
            main_loop(
                steps_range(TokV::Unsuffixed(0), a.p, k),
                true,
                a,
                i,
                k,
                move_rows(a.yptr, a.s_y, k as nat) + move_columns(a.yptr, a.s_y, k as nat),
            ),
        ),
        occurs(
            lmult_lower_tri_toks(a, i, k),
            main_loop(
                steps_range(ident("threshold"@), a.p, k),
                true,
                a,
                i,
                k,
                move_columns(a.yptr, a.s_y, k as nat) + move_rows(a.yptr, a.s_y, k as nat),
            ),
        ),
        occurs(
            lmult_upper_tri_toks(a, i, k),
            main_loop(
                steps_range(ident("threshold"@), a.p, k),
                true,
                a,
                i,
                k,
                move_rows(a.yptr, a.s_y, k as nat) + move_columns(a.xptr, a.s_x, k as nat),
            ),
        ),
        occurs(
            rmult_lower_tri_toks(a, i, k),
            main_loop(
                steps_range(ident("threshold"@), a.p, k),
                true,
                a,
                i,
                k,
                move_columns(a.xptr, a.s_x, k as nat) + move_rows(a.yptr, a.s_y, k as nat),
            ),
        ),
        occurs(
            rmult_upper_tri_toks(a, i, k),
            main_loop(
                steps_range(ident("threshold"@), a.p, k),
                true,
                a,
                i,
                k,
                move_columns(a.xptr, a.s_x, k as nat) + move_rows(a.yptr, a.s_y, k as nat),
            ),
        ),
{
    lemma_aligned_main_loop(a, i, k);
    lemma_unaligned_main_loop(a, i, k);
    lemma_lower_left_main_loop(a, i, k);
    lemma_upper_left_main_loop(a, i, k);
    lemma_lower_right_main_loop(a, i, k);
    lemma_upper_right_main_loop(a, i, k);
}

proof fn lemma_moves(a: KernelArgsV, k: usize)
    ensures
        crate::avx2::emitters::increment_toks(a.yptr, index_matrix_toks(a.yptr, a.s_y, 0, k))
            == move_columns(a.yptr, a.s_y, k as nat),
        crate::avx2::emitters::increment_toks(a.yptr, index_matrix_toks(a.yptr, a.s_y, k, 0))
            == move_rows(a.yptr, a.s_y, k as nat),
        crate::avx2::emitters::increment_toks(a.xptr, index_matrix_toks(a.xptr, a.s_x, 0, k))
            == move_columns(a.xptr, a.s_x, k as nat),
{
    lemma_element_address(a.yptr, a.s_y, 0, k);
    lemma_row_address(a.yptr, a.s_y, k);
    lemma_element_address(a.xptr, a.s_x, 0, k);
}

proof fn lemma_aligned_main_loop(a: KernelArgsV, i: usize, k: usize)
    ensures
        occurs(mult_alligned_toks(a, i, k), main_loop(zero_to(a.p), false, a, i, k, move_columns(a.yptr, a.s_y, k as nat) + move_rows(a.yptr, a.s_y, k as nat))),
{
    let lp = for_each(
        zero_to(a.p),
        load_vecs_toks(operand_names(k), a.yptr, a.s_y).flatten() + product_toks(
                None,
                acc_names(i),
                operand_names(k),
                a.xptr,
                a.s_x,
                false,
                k as nat,
            ).flatten() + crate::avx2::emitters::increment_toks(a.yptr, index_matrix_toks(a.yptr, a.s_y, 0, k))
                + crate::avx2::emitters::increment_toks(a.yptr, index_matrix_toks(a.yptr, a.s_y, k, 0)),
    );
    let rest = tail_toks(
            None,
            acc_names(i),
            operand_names(k),
            a.xptr,
            a.yptr,
            a.s_x,
            a.s_y,
            a.p,
            false,
            halvings(tail_start(k as nat)),
        ).flatten() + write_outcome_toks(acc_names(i), a.tptr, a.s_t).flatten();
    let kk = mult_alligned_toks(a, i, k);
    assert(kk.subrange(kk.len() - 1 - (lp.len() + rest.len()), kk.len() - 1) =~= lp + rest);
    lemma_occurs_before(kk, lp, rest);
    lemma_operand_rows(a.yptr, a.s_y, k);
    lemma_moves(a, k);
    assert(lp =~= main_loop(zero_to(a.p), false, a, i, k, move_columns(a.yptr, a.s_y, k as nat) + move_rows(a.yptr, a.s_y, k as nat)));
}

proof fn lemma_unaligned_main_loop(a: KernelArgsV, i: usize, k: usize)
    ensures
        occurs(mult_unalligned_toks(a, i, k), main_loop(steps_range(TokV::Unsuffixed(0), a.p, k), true, a, i, k, move_rows(a.yptr, a.s_y, k as nat) + move_columns(a.yptr, a.s_y, k as nat))),
{
    let lp = for_each(
        steps_range(TokV::Unsuffixed(0), a.p, k),
        masked_yvecs(a, k) + masked_fma(a, i, k) + crate::avx2::emitters::increment_toks(
                a.yptr,
                index_matrix_toks(a.yptr, a.s_y, k, 0),
            ) + crate::avx2::emitters::increment_toks(a.yptr, index_matrix_toks(a.yptr, a.s_y, 0, k)),
    );
    let rest = masked_tail(a, i, k) + masked_save(a, i);
    let kk = mult_unalligned_toks(a, i, k);
    assert(kk.subrange(kk.len() - 1 - (lp.len() + rest.len()), kk.len() - 1) =~= lp + rest);
    lemma_occurs_before(kk, lp, rest);
    lemma_operand_rows(a.yptr, a.s_y, k);
    lemma_moves(a, k);
    assert(lp =~= main_loop(steps_range(TokV::Unsuffixed(0), a.p, k), true, a, i, k, move_rows(a.yptr, a.s_y, k as nat) + move_columns(a.yptr, a.s_y, k as nat)));
}

proof fn lemma_lower_left_main_loop(a: KernelArgsV, i: usize, k: usize)
    ensures
        occurs(lmult_lower_tri_toks(a, i, k), main_loop(steps_range(ident("threshold"@), a.p, k), true, a, i, k, move_columns(a.yptr, a.s_y, k as nat) + move_rows(a.yptr, a.s_y, k as nat))),
{
    let lp = for_each(
        steps_range(ident("threshold"@), a.p, k),
        masked_yvecs(a, k) + masked_fma(a, i, k) + crate::avx2::emitters::increment_toks(
                a.yptr,
                index_matrix_toks(a.yptr, a.s_y, 0, k),
            ) + crate::avx2::emitters::increment_toks(a.yptr, index_matrix_toks(a.yptr, a.s_y, k, 0)),
    );
    let rest = masked_tail(a, i, k) + Seq::new(
            i as nat,
            |r: int|
                lowtri_block(
                    "mask_n"@,
                    acc_names(i),
                    a.xptr,
                    a.yptr,
                    a.s_x,
                    a.s_y,
                    operand_names(k)[0],
                    i as int,
                    r,
                ),
        ).flatten() + masked_save(a, i);
    let kk = lmult_lower_tri_toks(a, i, k);
    assert(kk.subrange(kk.len() - 1 - (lp.len() + rest.len()), kk.len() - 1) =~= lp + rest);
    lemma_occurs_before(kk, lp, rest);
    lemma_operand_rows(a.yptr, a.s_y, k);
    lemma_moves(a, k);
    assert(lp =~= main_loop(steps_range(ident("threshold"@), a.p, k), true, a, i, k, move_columns(a.yptr, a.s_y, k as nat) + move_rows(a.yptr, a.s_y, k as nat)));
}

proof fn lemma_upper_left_main_loop(a: KernelArgsV, i: usize, k: usize)
    ensures
        occurs(lmult_upper_tri_toks(a, i, k), main_loop(steps_range(ident("threshold"@), a.p, k), true, a, i, k, move_rows(a.yptr, a.s_y, k as nat) + move_columns(a.xptr, a.s_x, k as nat))),
{
    let lp = for_each(
        steps_range(ident("threshold"@), a.p, k),
        masked_yvecs(a, k) + masked_fma(a, i, k) + crate::avx2::emitters::increment_toks(
                a.yptr,
                index_matrix_toks(a.yptr, a.s_y, k, 0),
            ) + crate::avx2::emitters::increment_toks(a.xptr, index_matrix_toks(a.xptr, a.s_x, 0, k)),
    );
    let rest = masked_tail(a, i, k) + masked_save(a, i);
    let kk = lmult_upper_tri_toks(a, i, k);
    assert(kk.subrange(kk.len() - 1 - (lp.len() + rest.len()), kk.len() - 1) =~= lp + rest);
    lemma_occurs_before(kk, lp, rest);
    lemma_operand_rows(a.yptr, a.s_y, k);
    lemma_moves(a, k);
    assert(lp =~= main_loop(steps_range(ident("threshold"@), a.p, k), true, a, i, k, move_rows(a.yptr, a.s_y, k as nat) + move_columns(a.xptr, a.s_x, k as nat)));
}

proof fn lemma_lower_right_main_loop(a: KernelArgsV, i: usize, k: usize)
    ensures
        occurs(rmult_lower_tri_toks(a, i, k), main_loop(steps_range(ident("threshold"@), a.p, k), true, a, i, k, move_columns(a.xptr, a.s_x, k as nat) + move_rows(a.yptr, a.s_y, k as nat))),
{
    let lp = for_each(
        steps_range(ident("threshold"@), a.p, k),
        masked_yvecs(a, k) + masked_fma(a, i, k) + crate::avx2::emitters::increment_toks(
                a.xptr,
                index_matrix_toks(a.xptr, a.s_x, 0, k),
            ) + crate::avx2::emitters::increment_toks(a.yptr, index_matrix_toks(a.yptr, a.s_y, k, 0)),
    );
    let rest = masked_tail(a, i, k) + masked_save(a, i);
    let kk = rmult_lower_tri_toks(a, i, k);
    assert(kk.subrange(kk.len() - 1 - (lp.len() + rest.len()), kk.len() - 1) =~= lp + rest);
    lemma_occurs_before(kk, lp, rest);
    lemma_operand_rows(a.yptr, a.s_y, k);
    lemma_moves(a, k);
    assert(lp =~= main_loop(steps_range(ident("threshold"@), a.p, k), true, a, i, k, move_columns(a.xptr, a.s_x, k as nat) + move_rows(a.yptr, a.s_y, k as nat)));
}

proof fn lemma_upper_right_main_loop(a: KernelArgsV, i: usize, k: usize)
    ensures
        occurs(rmult_upper_tri_toks(a, i, k), main_loop(steps_range(ident("threshold"@), a.p, k), true, a, i, k, move_columns(a.xptr, a.s_x, k as nat) + move_rows(a.yptr, a.s_y, k as nat))),
{
    let lp = for_each(
        steps_range(ident("threshold"@), a.p, k),
        masked_yvecs(a, k) + masked_fma(a, i, k) + crate::avx2::emitters::increment_toks(
                a.xptr,
                index_matrix_toks(a.xptr, a.s_x, 0, k),
            ) + crate::avx2::emitters::increment_toks(a.yptr, index_matrix_toks(a.yptr, a.s_y, k, 0)),
    );
    let rest = crate::avx2::emitters::init_var_toks("mask_t"@, seq![ident("mask_n"@)])
            + crate::avx2::emitters::ruptri_toks(
            "mask_n"@,
            "mask_t"@,
            acc_names(i),
            a.xptr,
            a.yptr,
            a.s_x,
            a.s_y,
            "threshold"@,
            operand_names(k)[0],
        ) + masked_tail(a, i, k) + masked_save(a, i);
    let kk = rmult_upper_tri_toks(a, i, k);
    assert(kk.subrange(kk.len() - 1 - (lp.len() + rest.len()), kk.len() - 1) =~= lp + rest);
    lemma_occurs_before(kk, lp, rest);
    lemma_operand_rows(a.yptr, a.s_y, k);
    lemma_moves(a, k);
    assert(lp =~= main_loop(steps_range(ident("threshold"@), a.p, k), true, a, i, k, move_columns(a.xptr, a.s_x, k as nat) + move_rows(a.yptr, a.s_y, k as nat)));
}

} // verus!
