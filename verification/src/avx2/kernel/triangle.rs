//! A kernel over eight named rows `row_0 .. row_7`, with its own reading of
//! the kernel arguments.
use vstd::prelude::*;
use crate::avx2::common::stride_offset;
use crate::avx2::emitters::{Instr, add_call, call_toks, fma_macro_toks, init_var_toks, store_toks};
use crate::avx2::kernel::{
    ArgsError, KernelArgs, KernelArgsV, args_result, emit_unsafe_block, for_each, kernel_args_of,
    kernel_emitted, push_for_each, split_view, unsafe_block,
};
use crate::instructs::perms::{
    identity_order, is_permutation, lemma_bit_set, lemma_permute_swap, lemma_swap_is_permutation,
    permute, slice_swap, swap_at,
};
use crate::avx2::kernel::matmul::{kernel_result, lemma_kernel_emitted_result};
use crate::parse::split_exprs;
use vstd::set_lib::{set_int_range, lemma_int_range, lemma_len_subset};
use crate::tokens::{
    Delim, Expr, Ident, TokV, TokenStream, decimal, ident, lemma_concat_streams_push, punct,
    stream_values,
};

verus! {

/// Rows of the panel.
pub const M: usize = 8;

/// Rows handled together when staggering.
pub const STAG: usize = 2;

/// Numbered rows: each row index with the name of its variable.
pub type Rows = Vec<(usize, Ident)>;

/// The row indices and variable names of a sequence of rows.
pub open spec fn rows_view(v: Seq<(usize, Ident)>) -> Seq<(usize, Seq<char>)> {
    v.map_values(|r: (usize, Ident)| (r.0, r.1@))
}

/// Row `idx` and its variable `row_{idx}`.
pub open spec fn row(idx: int) -> (usize, Seq<char>) {
    (idx as usize, "row_"@ + decimal(idx as nat))
}

/// The rows `0 .. M` in order.
pub open spec fn irows_spec() -> Seq<(usize, Seq<char>)> {
    Seq::new(M as nat, |j: int| row(j))
}

/// The rows in staggered order `0, 4, 1, 5, 2, 6, 3, 7`: for each of the
/// first `M / STAG` rows, that row and the rows `M / STAG` further on.
pub open spec fn stagger_spec() -> Seq<(usize, Seq<char>)> {
    Seq::new(M as nat, |j: int| row(j / 2 + 4 * (j % 2)))
}

/// Pushing a row pushes its index and name.
proof fn lemma_rows_view_push(v: Seq<(usize, Ident)>, e: (usize, Ident))
    ensures
        rows_view(v.push(e)) == rows_view(v).push((e.0, e.1@)),
{
    assert(rows_view(v.push(e)) =~= rows_view(v).push((e.0, e.1@)));
}

/// The rows `0 .. M` with their variables `row_0 .. row_7`.
fn irows() -> (r: Rows)
    ensures
        rows_view(r@) == irows_spec(),
{
    let mut idents: Rows = Vec::new();
    let mut idx: usize = 0;
    while idx < M
        invariant
            idx <= M,
            rows_view(idents@) == irows_spec().subrange(0, idx as int),
        decreases M - idx,
    {
        let entry = (idx, Ident::numbered("row_", idx));
        proof {
            lemma_rows_view_push(idents@, entry);
        }
        idents.push(entry);
        assert(rows_view(idents@) =~= irows_spec().subrange(0, idx + 1));
        idx = idx + 1;
    }
    assert(irows_spec().subrange(0, M as int) =~= irows_spec());
    idents
}

/// The rows in staggered order.
fn stagger() -> (r: Rows)
    ensures
        rows_view(r@) == stagger_spec(),
{
    assert(M % STAG == 0);
    let mut idents: Rows = Vec::new();
    let mut odx: usize = 0;
    while odx < M / STAG
        invariant
            odx <= M / STAG,
            rows_view(idents@) == stagger_spec().subrange(0, 2 * odx),
        decreases M / STAG - odx,
    {
        let mut idx: usize = odx;
        let ghost mut c: int = 0;
        while idx < M
            invariant
                odx < M / STAG,
                0 <= c <= 2,
                idx == odx + 4 * c,
                idx < M <==> c < 2,
                rows_view(idents@) == stagger_spec().subrange(0, 2 * odx + c),
            decreases 2 - c,
        {
            let entry = (idx, Ident::numbered("row_", idx));
            proof {
                lemma_rows_view_push(idents@, entry);
            }
            idents.push(entry);
            assert(rows_view(idents@) =~= stagger_spec().subrange(0, 2 * odx + c + 1));
            idx = idx + M / STAG;
            proof {
                c = c + 1;
            }
        }
        odx = odx + 1;
    }
    assert(stagger_spec().subrange(0, M as int) =~= stagger_spec());
    idents
}

/// The statement for row `r` of a kernel over rows.
pub open spec fn row_stmt(kind: nat, r: (usize, Seq<char>), ptr: Seq<char>, stride: Seq<char>) -> Seq<
    TokV,
> {
    let addr = add_call(ptr, stride_offset(r.0, stride));
    if kind == 0 {
        init_var_toks(r.1, call_toks("mask_load"@, addr))
    } else if kind == 1 {
        fma_macro_toks(r.1, addr, seq![ident("b"@)])
    } else {
        store_toks(addr, r.1)
    }
}

/// One statement per row: a masked load (`kind` 0), a product with `b`
/// (`kind` 1) or a store (`kind` 2).
pub open spec fn row_stmts(
    kind: nat,
    rows: Seq<(usize, Seq<char>)>,
    ptr: Seq<char>,
    stride: Seq<char>,
) -> Seq<Seq<TokV>> {
    Seq::new(rows.len(), |j: int| row_stmt(kind, rows[j], ptr, stride))
}

/// The statement for one row.
fn emit_row_stmt(kind: u8, idx: usize, name: &Ident, ptr: &Expr, stride: &Expr) -> (r: TokenStream)
    requires
        kind <= 2,
    ensures
        r@ == row_stmt(kind as nat, (idx, name@), ptr@, stride@),
{
    let mut addr = TokenStream::new();
    addr.push_expr(ptr);
    addr.push_punct(".");
    addr.push_ident("add");
    let mut grp = TokenStream::new();
    grp.push_suffixed(idx);
    grp.push_punct("*");
    grp.push_expr(stride);
    addr.push_group(Delim::Paren, &grp);
    let mut out = TokenStream::new();
    if kind == 0 {
        out.push_ident("let");
        out.push_ident("mut");
        out.push_name(name);
        out.push_punct("=");
        out.push_ident("mask_load");
        let mut grp = TokenStream::new();
        grp.append(&addr);
        out.push_group(Delim::Paren, &grp);
        out.push_punct(";");
    } else if kind == 1 {
        out.push_ident("fma_accum");
        out.push_punct("!");
        let mut grp = TokenStream::new();
        grp.push_name(name);
        grp.push_punct(",");
        grp.append(&addr);
        grp.push_punct(",");
        grp.push_ident("b");
        out.push_group(Delim::Paren, &grp);
        out.push_punct(";");
    } else {
        out.push_ident("_mm256_storeu_ps");
        let mut grp = TokenStream::new();
        grp.append(&addr);
        grp.push_punct(",");
        grp.push_name(name);
        out.push_group(Delim::Paren, &grp);
        out.push_punct(";");
    }
    out
}

/// One statement of `kind` per row.
fn emit_row_stmts(kind: u8, rows: &Rows, ptr: &Expr, stride: &Expr) -> (r: Instr)
    requires
        kind <= 2,
    ensures
        stream_values(r@) == row_stmts(kind as nat, rows_view(rows@), ptr@, stride@),
{
    let ghost want = row_stmts(kind as nat, rows_view(rows@), ptr@, stride@);
    let mut out: Instr = Vec::new();
    let mut j: usize = 0;
    while j < rows.len()
        invariant
            kind <= 2,
            j <= rows@.len(),
            want == row_stmts(kind as nat, rows_view(rows@), ptr@, stride@),
            stream_values(out@) == want.subrange(0, j as int),
        decreases rows@.len() - j,
    {
        let idx = rows[j].0;
        let st = emit_row_stmt(kind, idx, &rows[j].1, ptr, stride);
        assert(st@ == want[j as int]);
        proof {
            lemma_concat_streams_push(out@, st);
        }
        out.push(st);
        assert(want.subrange(0, j + 1) =~= want.subrange(0, j as int).push(st@));
        j = j + 1;
    }
    assert(want.subrange(0, j as int) =~= want);
    out
}

/// `let mut #row = mask_load(#tptr.add(#idx * #s_t));` for each row.
fn load(rows: &Rows, tptr: &Expr, s_t: &Expr) -> (r: Instr)
    ensures
        stream_values(r@) == row_stmts(0, rows_view(rows@), tptr@, s_t@),
{
    emit_row_stmts(0, rows, tptr, s_t)
}

/// `fma_accum!(#row, #xptr.add(#idx * #s_x), b);` for each row.
fn product(rows: &Rows, xptr: &Expr, s_x: &Expr) -> (r: Instr)
    ensures
        stream_values(r@) == row_stmts(1, rows_view(rows@), xptr@, s_x@),
{
    emit_row_stmts(1, rows, xptr, s_x)
}

/// `_mm256_storeu_ps(#tptr.add(#idx * #s_t), #row);` for each row.
fn save(rows: &Rows, tptr: &Expr, s_t: &Expr) -> (r: Instr)
    ensures
        stream_values(r@) == row_stmts(2, rows_view(rows@), tptr@, s_t@),
{
    emit_row_stmts(2, rows, tptr, s_t)
}

/// The message for a missing argument `i`: the argument's name followed by
/// " not viable".
pub open spec fn not_viable(i: nat) -> Seq<char> {
    if i == 0 {
        "xptr not viable"@
    } else if i == 1 {
        "yptr not viable"@
    } else if i == 2 {
        "tptr not viable"@
    } else if i == 3 {
        "m not viable"@
    } else if i == 4 {
        "p not viable"@
    } else if i == 5 {
        "n not viable"@
    } else if i == 6 {
        "s_x not viable"@
    } else if i == 7 {
        "s_y not viable"@
    } else {
        "s_t not viable"@
    }
}

fn not_viable_message(i: usize) -> (r: &'static str)
    ensures
        r@ == not_viable(i as nat),
{
    if i == 0 {
        "xptr not viable"
    } else if i == 1 {
        "yptr not viable"
    } else if i == 2 {
        "tptr not viable"
    } else if i == 3 {
        "m not viable"
    } else if i == 4 {
        "p not viable"
    } else if i == 5 {
        "n not viable"
    } else if i == 6 {
        "s_x not viable"
    } else if i == 7 {
        "s_y not viable"
    } else {
        "s_t not viable"
    }
}

/// What reading the kernel arguments from a split input gives here: the
/// error of the split, the first missing argument reported as not viable,
/// or the arguments.
pub open spec fn triangle_args_outcome(split: Result<Seq<Seq<char>>, Seq<char>>) -> Result<
    KernelArgsV,
    (bool, Seq<char>),
> {
    match split {
        Err(msg) => Err((true, msg)),
        Ok(list) => if list.len() < 9 {
            Err((false, not_viable(list.len())))
        } else {
            Ok(kernel_args_of(list))
        },
    }
}

/// A message that names a missing argument.
pub open spec fn is_not_viable(m: Seq<char>) -> bool {
    exists|i: nat| i < 9 && m == #[trigger] not_viable(i)
}

/// The nine kernel arguments from a split input, naming the first missing one.
pub fn triangle_args_from_split(split: Result<Vec<String>, String>) -> (r: Result<KernelArgs, ArgsError>)
    ensures
        args_result(r, triangle_args_outcome(split_view(split))),
{
    match split {
        Err(msg) => Err(ArgsError::Syntax(msg)),
        Ok(list) => match KernelArgs::from_exprs(&list) {
            Err(i) => Err(ArgsError::Missing(String::from_str(not_viable_message(i)))),
            Ok(a) => Ok(a),
        },
    }
}

/// Reads the nine kernel arguments from `input`, split by `syn`, naming the
/// first missing one.
pub fn parse_triangle_args(input: &str) -> (r: Result<KernelArgs, ArgsError>)
    ensures
        r matches Err(ArgsError::Missing(m)) ==> is_not_viable(m@),
{
    let split = split_exprs(input);
    let ghost sv = split_view(split);
    let r = triangle_args_from_split(split);
    proof {
        if let Ok(list) = sv {
            if list.len() < 9 {
                assert(not_viable(list.len()) == not_viable(list.len()));
            }
        }
    }
    r
}

/// The kernel emitted by `mult_unalligned`: masked loads of the rows, `p`
/// steps that load `b` from `yptr` and add its products into every row, and
/// the stores (the loop bound `p` and the pointer `yptr` are the variables
/// of those names, not the arguments).
pub open spec fn triangle_kernel_toks(a: KernelArgsV) -> Seq<TokV> {
    let rows = irows_spec();
    unsafe_block(
        row_stmts(0, rows, a.tptr, a.s_t).flatten() + for_each(
            seq![TokV::Unsuffixed(0), punct(".."@), ident("p"@)],
            seq![ident("let"@), ident("b"@), punct("="@)] + call_toks(
                "_mm256_loadu_ps"@,
                seq![ident("yptr"@)],
            ) + seq![punct(";"@)] + row_stmts(1, rows, a.xptr, a.s_x).flatten(),
        ) + row_stmts(2, rows, a.tptr, a.s_t).flatten(),
    )
}

/// The kernel over the rows `0 .. M`.
pub fn emit_triangle_kernel(a: &KernelArgs) -> (r: TokenStream)
    ensures
        r@ == triangle_kernel_toks(a@),
{
    let rows = irows();
    let load = load(&rows, &a.tptr, &a.s_t);
    let prod = product(&rows, &a.xptr, &a.s_x);
    let save = save(&rows, &a.tptr, &a.s_t);
    let mut range = TokenStream::new();
    range.push_unsuffixed(0);
    range.push_punct("..");
    range.push_ident("p");
    let mut step = TokenStream::new();
    step.push_ident("let");
    step.push_ident("b");
    step.push_punct("=");
    step.push_ident("_mm256_loadu_ps");
    let mut grp = TokenStream::new();
    grp.push_ident("yptr");
    step.push_group(Delim::Paren, &grp);
    step.push_punct(";");
    step.append_all(&prod);
    let mut body = TokenStream::new();
    body.append_all(&load);
    push_for_each(&mut body, &range, &step);
    body.append_all(&save);
    emit_unsafe_block(&body)
}

/// The kernel over rows for the arguments read from a split input, or the
/// reading error (naming the first missing argument) unchanged.
pub fn mult_unalligned_from_split(split: Result<Vec<String>, String>) -> (r: Result<
    TokenStream,
    ArgsError,
>)
    ensures
        kernel_emitted(r, triangle_args_outcome(split_view(split)), |a: KernelArgsV| triangle_kernel_toks(a)),
{
    match triangle_args_from_split(split) {
        Err(e) => Err(e),
        Ok(a) => Ok(emit_triangle_kernel(&a)),
    }
}

/// Reads the kernel arguments from `input`, split by `syn`, and emits the
/// kernel over rows.
pub fn mult_unalligned(input: &str) -> (r: Result<TokenStream, ArgsError>)
    ensures
        kernel_result(
            r,
            |m: Seq<char>| is_not_viable(m),
            |a: KernelArgsV| triangle_kernel_toks(a),
        ),
{
    let split = split_exprs(input);
    let ghost sv = split_view(split);
    let r = mult_unalligned_from_split(split);
    proof {
        if let Ok(list) = sv {
            if list.len() < 9 {
                assert(not_viable(list.len()) == not_viable(list.len()));
            }
        }
        lemma_kernel_emitted_result(
            r,
            triangle_args_outcome(sv),
            |m: Seq<char>| is_not_viable(m),
            |a: KernelArgsV| triangle_kernel_toks(a),
        );
    }
    r
}

/// Exchanges, for each odd position `i` below half the length `h`, the
/// elements at `i` and `i + h`.
fn interleave<T>(data: &mut [T])
    ensures
        final(data)@ == permute(
            old(data)@,
            crate::instructs::perms::interleave_order(old(data)@.len()),
        ),
{
    crate::instructs::perms::interleave(data)
}

/// One chain of this kernel's `riffle` filling position `i`: from position
/// `v` it moves on to `t = 2 v mod m`, exchanging positions `i` and `t` and
/// marking `v` as visited, until `t` is a visited position; at most `fuel`
/// exchanges are made.
pub open spec fn marking_chain(
    order: Seq<int>,
    m: int,
    i: int,
    v: int,
    seen: Set<int>,
    fuel: nat,
) -> (Seq<int>, Set<int>)
    decreases fuel,
{
    if fuel == 0 {
        (order, seen)
    } else {
        let t = (2 * v) % m;
        if seen.contains(t) {
            (order, seen)
        } else {
            marking_chain(swap_at(order, i, t), m, i, t, seen.insert(v), (fuel - 1) as nat)
        }
    }
}

/// The chains for the positions `i .. m`, one after the other.
pub open spec fn marking_rows(order: Seq<int>, m: int, i: int, seen: Set<int>) -> Seq<int>
    decreases m - i,
{
    if i >= m {
        order
    } else {
        let (next, seen2) = marking_chain(order, m, i, i, seen, (2 * m + 1) as nat);
        marking_rows(next, m, i + 1, seen2)
    }
}

/// The reordering performed by this kernel's `riffle` on `n` elements.
pub open spec fn marking_riffle_order(n: nat) -> Seq<int> {
    marking_rows(identity_order(n), n - 1, 1, Set::empty())
}

/// A bound on the exchanges left in a chain at position `v` with the
/// positions `seen` visited.
spec fn chain_measure(seen: Set<int>, v: int, m: int) -> int {
    2 * (m - seen.insert(v).len()) + if seen.contains(v) {
        0int
    } else {
        1int
    }
}

/// Each exchange of a chain lowers its measure, which stays non-negative.
proof fn lemma_chain_measure_step(seen: Set<int>, v: int, t: int, m: int)
    requires
        seen.finite(),
        seen.subset_of(set_int_range(0, m)),
        0 <= v < m,
        0 <= t < m,
        !seen.contains(t),
    ensures
        seen.insert(v).finite(),
        seen.insert(v).subset_of(set_int_range(0, m)),
        0 <= chain_measure(seen.insert(v), t, m) < chain_measure(seen, v, m),
{
    lemma_int_range(0, m);
    let a = seen.insert(v);
    lemma_len_subset(a.insert(t), set_int_range(0, m));
    lemma_len_subset(a, set_int_range(0, m));
    if t == v {
        assert(a.insert(t) =~= a);
    }
}

/// The chain measure starts within `2 m + 1`.
proof fn lemma_chain_measure_start(seen: Set<int>, v: int, m: int)
    requires
        seen.finite(),
        seen.subset_of(set_int_range(0, m)),
        0 <= v < m,
    ensures
        0 <= chain_measure(seen, v, m) <= 2 * m + 1,
{
    lemma_int_range(0, m);
    lemma_len_subset(seen.insert(v), set_int_range(0, m));
}

proof fn lemma_marking_chain_is_permutation(
    order: Seq<int>,
    n: int,
    m: int,
    i: int,
    v: int,
    seen: Set<int>,
    fuel: nat,
)
    requires
        is_permutation(order, n),
        0 < m <= n,
        0 <= i < n,
    ensures
        is_permutation(marking_chain(order, m, i, v, seen, fuel).0, n),
    decreases fuel,
{
    if fuel > 0 {
        let t = (2 * v) % m;
        if !seen.contains(t) {
            lemma_swap_is_permutation(order, n, i, t);
            lemma_marking_chain_is_permutation(
                swap_at(order, i, t),
                n,
                m,
                i,
                t,
                seen.insert(v),
                (fuel - 1) as nat,
            );
        }
    }
}

proof fn lemma_marking_rows_is_permutation(order: Seq<int>, n: int, m: int, i: int, seen: Set<int>)
    requires
        is_permutation(order, n),
        m <= n,
        0 <= i,
    ensures
        is_permutation(marking_rows(order, m, i, seen), n),
    decreases m - i,
{
    if i < m {
        lemma_marking_chain_is_permutation(order, n, m, i, i, seen, (2 * m + 1) as nat);
        let (next, seen2) = marking_chain(order, m, i, i, seen, (2 * m + 1) as nat);
        lemma_marking_rows_is_permutation(next, n, m, i + 1, seen2);
    }
}

/// The reordering of this kernel's `riffle` moves every element exactly once.
pub proof fn lemma_marking_riffle_order_is_permutation(n: nat)
    ensures
        is_permutation(marking_riffle_order(n), n as int),
{
    assert(is_permutation(identity_order(n), n as int));
    if n > 0 {
        lemma_marking_rows_is_permutation(identity_order(n), n as int, n - 1, 1, Set::empty());
    }
}

/// Riffles the elements as `instructs::perms::riffle` does, except that a
/// chain marks the position it leaves rather than the one it reaches.
fn riffle<T>(data: &mut [T])
    requires
        1 <= old(data)@.len() <= 65,
    ensures
        final(data)@ == permute(old(data)@, marking_riffle_order(old(data)@.len())),
{
    let n = data.len();
    let ghost target = marking_riffle_order(n as nat);
    let mut seen: u64 = 0;
    let m = n - 1;
    let ghost mut order = identity_order(n as nat);
    let ghost mut gseen = Set::<int>::empty();
    proof {
        lemma_int_range(0, m as int);
        assert forall|j: u64| j < 64 implies ((seen & (1u64 << j)) != 0) == gseen.contains(
            j as int,
        ) by {
            assert(0u64 & (1u64 << j) == 0) by (bit_vector);
        }
        assert(data@ =~= permute(old(data)@, order));
    }
    let mut i: usize = 1;
    while i < m
        invariant
            m == n - 1,
            1 <= n <= 65,
            data@.len() == n,
            old(data)@.len() == n,
            target == marking_riffle_order(n as nat),
            1 <= i,
            order.len() == n,
            data@ == permute(old(data)@, order),
            gseen.finite(),
            gseen.subset_of(set_int_range(0, m as int)),
            forall|j: u64| j < 64 ==> ((seen & (1u64 << j)) != 0) == gseen.contains(j as int),
            marking_rows(order, m as int, i as int, gseen) == target,
        decreases m - i,
    {
        let mut v = i;
        let ghost mut fuel: nat = (2 * m + 1) as nat;
        proof {
            lemma_chain_measure_start(gseen, v as int, m as int);
        }
        loop
            invariant
                m == n - 1,
                1 <= n <= 65,
                data@.len() == n,
                old(data)@.len() == n,
                target == marking_riffle_order(n as nat),
                1 <= i < m,
                v < m,
                order.len() == n,
                data@ == permute(old(data)@, order),
                gseen.finite(),
                gseen.subset_of(set_int_range(0, m as int)),
                fuel >= chain_measure(gseen, v as int, m as int),
                chain_measure(gseen, v as int, m as int) >= 0,
                forall|j: u64| j < 64 ==> ((seen & (1u64 << j)) != 0) == gseen.contains(j as int),
                ({
                    let (next, seen2) = marking_chain(order, m as int, i as int, v as int, gseen, fuel);
                    marking_rows(next, m as int, i + 1, seen2)
                }) == target,
            ensures
                1 <= i < m,
                order.len() == n,
                data@.len() == n,
                data@ == permute(old(data)@, order),
                gseen.finite(),
                gseen.subset_of(set_int_range(0, m as int)),
                forall|j: u64| j < 64 ==> ((seen & (1u64 << j)) != 0) == gseen.contains(j as int),
                marking_rows(order, m as int, i + 1, gseen) == target,
            decreases chain_measure(gseen, v as int, m as int),
        {
            let t = 2 * v % m;
            let tb = t as u64;
            if seen & (1u64 << tb) != 0 {
                assert(gseen.contains(t as int));
                break;
            }
            assert(!gseen.contains(t as int));
            proof {
                lemma_chain_measure_step(gseen, v as int, t as int, m as int);
            }
            slice_swap(data, i, t);
            let vb = v as u64;
            let ghost old_seen = seen;
            seen = seen | (1u64 << vb);
            proof {
                assert forall|j: u64| j < 64 implies ((seen & (1u64 << j)) != 0) == gseen.insert(
                    v as int,
                ).contains(j as int) by {
                    lemma_bit_set(old_seen, vb, j);
                }
                lemma_permute_swap(old(data)@, order, i as int, t as int);
                order = swap_at(order, i as int, t as int);
                gseen = gseen.insert(v as int);
                fuel = (fuel - 1) as nat;
            }
            v = t;
        }
        i = i + 1;
    }
    proof {
        lemma_marking_riffle_order_is_permutation(n as nat);
    }
}

} // verus!
