//! Emitters of the statements that make up a kernel: addressing into
//! matrices, loads, fused multiply-adds, tails and stores.
use vstd::prelude::*;
use vstd::arithmetic::power2::{pow2, lemma_pow2_unfold, lemma_pow2_strictly_increases, lemma_pow2_pos};
use vstd::bits::{lemma_usize_shl_is_mul, lemma_usize_shr_is_div, lemma_usize_pow2_no_overflow};
use vstd::arithmetic::div_mod::lemma_mod_breakdown;
use crate::tokens::{
    Delim, Expr, Ident, TokV, TokenStream, group, ident, lemma_concat_streams_push, punct, stream_values, decimal,
};

verus! {

/// Identifiers of emitted variables.
pub type Vars = Vec<Ident>;

/// Expressions handed to a kernel.
pub type Args = Vec<Expr>;

/// Emitted statements, one stream per statement.
pub type Instr = Vec<TokenStream>;

/// The identifiers of a sequence of [`Ident`]s.
pub open spec fn names(v: Seq<Ident>) -> Seq<Seq<char>> {
    v.map_values(|i: Ident| i@)
}

/// `rows` rows of `cols` values `f(r, c)`, row after row.
pub open spec fn grid<A>(rows: nat, cols: nat, f: spec_fn(int, int) -> A) -> Seq<A> {
    Seq::new(rows, |r: int| Seq::new(cols, |c: int| f(r, c))).flatten()
}

/// One more row extends a grid by that row.
pub proof fn lemma_grid_push<A>(rows: nat, cols: nat, f: spec_fn(int, int) -> A)
    ensures
        grid(rows + 1, cols, f) == grid(rows, cols, f) + Seq::new(cols, |c: int| f(rows as int, c)),
{
    let before = Seq::new(rows, |r: int| Seq::new(cols, |c: int| f(r, c)));
    let after = Seq::new(rows + 1, |r: int| Seq::new(cols, |c: int| f(r, c)));
    assert(after =~= before.push(Seq::new(cols, |c: int| f(rows as int, c))));
    before.lemma_flatten_push(Seq::new(cols, |c: int| f(rows as int, c)));
}

/// A grid has `rows * cols` elements.
pub proof fn lemma_grid_len<A>(rows: nat, cols: nat, f: spec_fn(int, int) -> A)
    ensures
        grid(rows, cols, f).len() == rows * cols,
    decreases rows,
{
    if rows == 0 {
        lemma_grid_empty(cols, f);
    } else {
        lemma_grid_len((rows - 1) as nat, cols, f);
        lemma_grid_push((rows - 1) as nat, cols, f);
        assert(rows * cols == (rows - 1) * cols + cols) by (nonlinear_arith)
            requires
                rows >= 1,
        ;
    }
}

/// A grid without rows is empty.
pub proof fn lemma_grid_empty<A>(cols: nat, f: spec_fn(int, int) -> A)
    ensures
        grid(0, cols, f) == Seq::<A>::empty(),
{
    assert(Seq::new(0, |r: int| Seq::new(cols, |c: int| f(r, c))) =~= Seq::<Seq<A>>::empty());
}

/// `ptr.add(args)`.
pub open spec fn add_call(ptr: Seq<char>, args: Seq<TokV>) -> Seq<TokV> {
    seq![TokV::Expr(ptr), punct("."@), ident("add"@)] + group(Delim::Paren, args)
}

/// The address of element (`row`, `col`) of a row-major matrix at `ptr`
/// with row stride `stride`, written with as few operations as possible.
pub open spec fn index_matrix_toks(ptr: Seq<char>, stride: Seq<char>, row: usize, col: usize) -> Seq<
    TokV,
> {
    let st = TokV::Expr(stride);
    if row == 0 && col == 0 {
        seq![TokV::Expr(ptr)]
    } else if row == 0 {
        add_call(ptr, seq![TokV::Suffixed(col)])
    } else if row == 1 && col == 0 {
        add_call(ptr, seq![st])
    } else if col == 0 {
        add_call(ptr, seq![st, punct("*"@), TokV::Suffixed(row)])
    } else if row == 1 {
        add_call(ptr, seq![st, punct("+"@), TokV::Suffixed(col)])
    } else {
        add_call(ptr, seq![st, punct("*"@), TokV::Suffixed(row), punct("+"@), TokV::Suffixed(col)])
    }
}

/// `#ptr = #addr;`
pub open spec fn increment_toks(ptr: Seq<char>, addr: Seq<TokV>) -> Seq<TokV> {
    seq![TokV::Expr(ptr), punct("="@)] + addr + seq![punct(";"@)]
}

/// `let mut #name = #val;`
pub open spec fn init_var_toks(name: Seq<char>, val: Seq<TokV>) -> Seq<TokV> {
    seq![ident("let"@), ident("mut"@), ident(name), punct("="@)] + val + seq![punct(";"@)]
}

/// `#f(#args)`
pub open spec fn call_toks(f: Seq<char>, args: Seq<TokV>) -> Seq<TokV> {
    seq![ident(f)] + group(Delim::Paren, args)
}

/// `#mask[#idx]`
pub open spec fn lane_toks(mask: Seq<char>, idx: usize) -> Seq<TokV> {
    seq![ident(mask)] + group(Delim::Bracket, seq![TokV::Suffixed(idx)])
}

/// `let mut #name = _mm256_loadu_ps(#addr);`
pub open spec fn lvec_toks(name: Seq<char>, addr: Seq<TokV>) -> Seq<TokV> {
    init_var_toks(name, call_toks("_mm256_loadu_ps"@, addr))
}

/// `let mut #name = mask_load(#mask, #addr);`
pub open spec fn mlvec_toks(mask: Seq<char>, name: Seq<char>, addr: Seq<TokV>) -> Seq<TokV> {
    init_var_toks(name, call_toks("mask_load"@, seq![ident(mask), punct(","@)] + addr))
}

/// `fma_accum!(#name, #addr, #b);`
pub open spec fn fma_macro_toks(name: Seq<char>, addr: Seq<TokV>, b: Seq<TokV>) -> Seq<TokV> {
    seq![ident("fma_accum"@), punct("!"@)] + group(
        Delim::Paren,
        seq![ident(name), punct(","@)] + addr + seq![punct(","@)] + b,
    ) + seq![punct(";"@)]
}

/// `#acc = fma_accum(#acc, #addr, #b);`
pub open spec fn fma_assign_toks(acc: Seq<char>, addr: Seq<TokV>, b: Seq<char>) -> Seq<TokV> {
    seq![ident(acc), punct("="@)] + call_toks(
        "fma_accum"@,
        seq![ident(acc), punct(","@)] + addr + seq![punct(","@), ident(b)],
    ) + seq![punct(";"@)]
}

/// `#acc = cfma_accum(#mask[#idx], #acc, #addr, #b);`
pub open spec fn cfma_assign_toks(
    mask: Seq<char>,
    idx: usize,
    acc: Seq<char>,
    addr: Seq<TokV>,
    b: Seq<char>,
) -> Seq<TokV> {
    seq![ident(acc), punct("="@)] + call_toks(
        "cfma_accum"@,
        lane_toks(mask, idx) + seq![punct(","@), ident(acc), punct(","@)] + addr + seq![
            punct(","@),
            ident(b),
        ],
    ) + seq![punct(";"@)]
}

/// `_mm256_storeu_ps(#addr, #var);`
pub open spec fn store_toks(addr: Seq<TokV>, var: Seq<char>) -> Seq<TokV> {
    call_toks("_mm256_storeu_ps"@, addr + seq![punct(","@), ident(var)]) + seq![punct(";"@)]
}

/// `mask_store_ctrl(#mask_m[#idx], #mask_n, #addr, #var);`
pub open spec fn mstore_toks(
    mask_m: Seq<char>,
    idx: usize,
    mask_n: Seq<char>,
    addr: Seq<TokV>,
    var: Seq<char>,
) -> Seq<TokV> {
    call_toks(
        "mask_store_ctrl"@,
        lane_toks(mask_m, idx) + seq![punct(","@), ident(mask_n), punct(","@)] + addr + seq![
            punct(","@),
            ident(var),
        ],
    ) + seq![punct(";"@)]
}

fn push_add_call(out: &mut TokenStream, ptr: &Expr, args: &TokenStream)
    ensures
        final(out)@ == old(out)@ + add_call(ptr@, args@),
{
    out.push_expr(ptr);
    out.push_punct(".");
    out.push_ident("add");
    out.push_group(Delim::Paren, args);
    assert(final(out)@ =~= old(out)@ + add_call(ptr@, args@));
}

/// The address of element (`row`, `col`) of the matrix at `ptr` with row
/// stride `stride`.
pub fn index_matrix(ptr: &Expr, stride: &Expr, row: usize, col: usize) -> (r: TokenStream)
    ensures
        r@ == index_matrix_toks(ptr@, stride@, row, col),
{
    let mut out = TokenStream::new();
    if row == 0 && col == 0 {
        out.push_expr(ptr);
        return out;
    }
    let mut args = TokenStream::new();
    if row == 0 {
        args.push_suffixed(col);
    } else if row == 1 && col == 0 {
        args.push_expr(stride);
    } else if col == 0 {
        args.push_expr(stride);
        args.push_punct("*");
        args.push_suffixed(row);
    } else if row == 1 {
        args.push_expr(stride);
        args.push_punct("+");
        args.push_suffixed(col);
    } else {
        args.push_expr(stride);
        args.push_punct("*");
        args.push_suffixed(row);
        args.push_punct("+");
        args.push_suffixed(col);
    }
    push_add_call(&mut out, ptr, &args);
    out
}

/// The identifiers `prefix0`, `prefix1`, ..., `prefix{m - 1}`.
pub open spec fn numbered_names(prefix: Seq<char>, m: nat) -> Seq<Seq<char>> {
    Seq::new(m, |i: int| prefix + decimal(i as nat))
}

/// The identifiers `prefix0`, `prefix1`, ..., one for each index below `m`.
pub fn name_range(prefix: &str, m: usize) -> (r: Vars)
    ensures
        r@.len() == m,
        names(r@) == numbered_names(prefix@, m as nat),
{
    let mut idents: Vec<Ident> = Vec::new();
    let mut idx: usize = 0;
    while idx < m
        invariant
            idx <= m,
            idents@.len() == idx,
            forall|i: int| 0 <= i < idx ==> (#[trigger] idents@[i])@ == prefix@ + decimal(i as nat),
        decreases m - idx,
    {
        idents.push(Ident::numbered(prefix, idx));
        idx = idx + 1;
    }
    assert(names(idents@) =~= numbered_names(prefix@, m as nat));
    idents
}

/// The identifier with the given text.
pub fn name(content: &str) -> (r: Ident)
    ensures
        r@ == content@,
{
    Ident::new(content)
}

/// `#ptr = <address of (row, col)>;`: moves `ptr` to element (`row`, `col`).
pub fn increment(ptr: &Expr, stride: &Expr, row: usize, col: usize) -> (r: TokenStream)
    ensures
        r@ == increment_toks(ptr@, index_matrix_toks(ptr@, stride@, row, col)),
{
    let addr = index_matrix(ptr, stride, row, col);
    let mut out = TokenStream::new();
    out.push_expr(ptr);
    out.push_punct("=");
    out.append(&addr);
    out.push_punct(";");
    out
}

/// `let mut #name = #val;`
pub fn init_var(name: &Ident, val: &TokenStream) -> (r: TokenStream)
    ensures
        r@ == init_var_toks(name@, val@),
{
    let mut out = TokenStream::new();
    out.push_ident("let");
    out.push_ident("mut");
    out.push_name(name);
    out.push_punct("=");
    out.append(val);
    out.push_punct(";");
    out
}

/// `#f(` followed by `args` and `)`.
fn call(f: &str, args: &TokenStream) -> (r: TokenStream)
    ensures
        r@ == call_toks(f@, args@),
{
    let mut out = TokenStream::new();
    out.push_ident(f);
    let mut grp = TokenStream::new();
    grp.append(args);
    out.push_group(Delim::Paren, &grp);
    out
}

/// Loads row `row` of the matrix at `ptr` into a new variable `name`
/// (`col` is not used: the load starts at the row's first element).
pub fn lvec(name: &Ident, ptr: &Expr, stride: &Expr, row: usize, col: usize) -> (r: TokenStream)
    ensures
        r@ == lvec_toks(name@, index_matrix_toks(ptr@, stride@, row, 0)),
{
    let addr = index_matrix(ptr, stride, row, 0);
    let load = call("_mm256_loadu_ps", &addr);
    init_var(name, &load)
}

/// Loads element (`row`, `col`) onward under `mask` into a new variable `name`.
pub fn mlvec(mask: &Ident, name: &Ident, ptr: &Expr, stride: &Expr, row: usize, col: usize) -> (r:
    TokenStream)
    ensures
        r@ == mlvec_toks(mask@, name@, index_matrix_toks(ptr@, stride@, row, col)),
{
    let addr = index_matrix(ptr, stride, row, col);
    let mut args = TokenStream::new();
    args.push_name(mask);
    args.push_punct(",");
    args.append(&addr);
    let load = call("mask_load", &args);
    init_var(name, &load)
}

/// `fma_accum!(#name, <address of (row, col)>, #b);`
pub fn fma(name: &Ident, b: &Expr, ptr: &Expr, stride: &Expr, row: usize, col: usize) -> (r:
    TokenStream)
    ensures
        r@ == fma_macro_toks(name@, index_matrix_toks(ptr@, stride@, row, col), seq![TokV::Expr(b@)]),
{
    let addr = index_matrix(ptr, stride, row, col);
    let mut args = TokenStream::new();
    args.push_name(name);
    args.push_punct(",");
    args.append(&addr);
    args.push_punct(",");
    args.push_expr(b);
    let mut out = TokenStream::new();
    out.push_ident("fma_accum");
    out.push_punct("!");
    let mut grp = TokenStream::new();
    grp.append(&args);
    out.push_group(Delim::Paren, &grp);
    out.push_punct(";");
    out
}

/// `#acc = fma_accum(#acc, #addr, #b);`
fn fma_assign(acc: &Ident, addr: &TokenStream, b: &Ident) -> (r: TokenStream)
    ensures
        r@ == fma_assign_toks(acc@, addr@, b@),
{
    let mut args = TokenStream::new();
    args.push_name(acc);
    args.push_punct(",");
    args.append(addr);
    args.push_punct(",");
    args.push_name(b);
    let mut out = TokenStream::new();
    out.push_name(acc);
    out.push_punct("=");
    out.append(&call("fma_accum", &args));
    out.push_punct(";");
    out
}

/// `#mask[#idx]`
fn push_lane(out: &mut TokenStream, mask: &Ident, idx: usize)
    ensures
        final(out)@ == old(out)@ + lane_toks(mask@, idx),
{
    out.push_name(mask);
    let mut grp = TokenStream::new();
    grp.push_suffixed(idx);
    out.push_group(Delim::Bracket, &grp);
}

/// `#acc = cfma_accum(#mask[#idx], #acc, #addr, #b);`
fn cfma_assign(mask: &Ident, idx: usize, acc: &Ident, addr: &TokenStream, b: &Ident) -> (r:
    TokenStream)
    ensures
        r@ == cfma_assign_toks(mask@, idx, acc@, addr@, b@),
{
    let mut args = TokenStream::new();
    push_lane(&mut args, mask, idx);
    args.push_punct(",");
    args.push_name(acc);
    args.push_punct(",");
    args.append(addr);
    args.push_punct(",");
    args.push_name(b);
    let mut out = TokenStream::new();
    out.push_name(acc);
    out.push_punct("=");
    out.append(&call("cfma_accum", &args));
    out.push_punct(";");
    out
}

/// `_mm256_storeu_ps(#addr, #var);`
fn store(addr: &TokenStream, var: &Ident) -> (r: TokenStream)
    ensures
        r@ == store_toks(addr@, var@),
{
    let mut args = addr.clone_stream();
    args.push_punct(",");
    args.push_name(var);
    let mut out = call("_mm256_storeu_ps", &args);
    out.push_punct(";");
    out
}

/// `mask_store_ctrl(#mask_m[#idx], #mask_n, #addr, #var);`
fn mstore(mask_m: &Ident, idx: usize, mask_n: &Ident, addr: &TokenStream, var: &Ident) -> (r:
    TokenStream)
    ensures
        r@ == mstore_toks(mask_m@, idx, mask_n@, addr@, var@),
{
    let mut args = TokenStream::new();
    push_lane(&mut args, mask_m, idx);
    args.push_punct(",");
    args.push_name(mask_n);
    args.push_punct(",");
    args.append(addr);
    args.push_punct(",");
    args.push_name(var);
    let mut out = call("mask_store_ctrl", &args);
    out.push_punct(";");
    out
}

/// The loads of `load_vecs`: variable `idx` gets row `idx`.
pub open spec fn load_vecs_toks(vars: Seq<Seq<char>>, ptr: Seq<char>, stride: Seq<char>) -> Seq<
    Seq<TokV>,
> {
    Seq::new(
        vars.len(),
        |idx: int| lvec_toks(vars[idx], index_matrix_toks(ptr, stride, idx as usize, 0)),
    )
}

/// Loads each row `idx` of the matrix at `ptr` into `vars[idx]` (`card` is
/// not used).
pub fn load_vecs(vars: &Vars, ptr: &Expr, stride: &Expr, card: usize) -> (r: Instr)
    ensures
        stream_values(r@) == load_vecs_toks(names(vars@), ptr@, stride@),
{
    let mut out: Instr = Vec::new();
    let mut idx: usize = 0;
    while idx < vars.len()
        invariant
            idx <= vars@.len(),
            stream_values(out@) == load_vecs_toks(names(vars@), ptr@, stride@).subrange(0, idx as int),
        decreases vars@.len() - idx,
    {
        let st = lvec(&vars[idx], ptr, stride, idx, 0);
        proof {
            lemma_concat_streams_push(out@, st);
        }
        out.push(st);
        assert(load_vecs_toks(names(vars@), ptr@, stride@).subrange(0, idx + 1) =~= load_vecs_toks(
            names(vars@),
            ptr@,
            stride@,
        ).subrange(0, idx as int).push(st@));
        idx = idx + 1;
    }
    assert(load_vecs_toks(names(vars@), ptr@, stride@).subrange(0, idx as int) =~= load_vecs_toks(
        names(vars@),
        ptr@,
        stride@,
    ));
    out
}

/// The masked loads of `mload_vecs`: variable `idx` gets row `idx`.
pub open spec fn mload_vecs_toks(
    mask: Seq<char>,
    vars: Seq<Seq<char>>,
    ptr: Seq<char>,
    stride: Seq<char>,
) -> Seq<Seq<TokV>> {
    Seq::new(
        vars.len(),
        |idx: int| mlvec_toks(mask, vars[idx], index_matrix_toks(ptr, stride, idx as usize, 0)),
    )
}

/// Loads each row `idx` of the matrix at `ptr` under `mask` into
/// `vars[idx]` (`card` is not used).
pub fn mload_vecs(mask: &Ident, vars: &Vars, ptr: &Expr, stride: &Expr, card: usize) -> (r: Instr)
    ensures
        stream_values(r@) == mload_vecs_toks(mask@, names(vars@), ptr@, stride@),
{
    let mut out: Instr = Vec::new();
    let mut idx: usize = 0;
    while idx < vars.len()
        invariant
            idx <= vars@.len(),
            stream_values(out@) == mload_vecs_toks(mask@, names(vars@), ptr@, stride@).subrange(
                0,
                idx as int,
            ),
        decreases vars@.len() - idx,
    {
        let st = mlvec(mask, &vars[idx], ptr, stride, idx, 0);
        proof {
            lemma_concat_streams_push(out@, st);
        }
        out.push(st);
        assert(mload_vecs_toks(mask@, names(vars@), ptr@, stride@).subrange(0, idx + 1)
            =~= mload_vecs_toks(mask@, names(vars@), ptr@, stride@).subrange(0, idx as int).push(st@));
        idx = idx + 1;
    }
    assert(mload_vecs_toks(mask@, names(vars@), ptr@, stride@).subrange(0, idx as int)
        =~= mload_vecs_toks(mask@, names(vars@), ptr@, stride@));
    out
}

/// The text of an optional mask.
pub open spec fn mask_view(mask: Option<&Ident>) -> Option<Seq<char>> {
    match mask {
        Some(m) => Some(m@),
        None => None,
    }
}

/// The address read by the product step of accumulator `idx` and operand
/// `bdx`: element (`idx`, `bdx`), or (`bdx`, `idx`) when transposed.
pub open spec fn product_addr(
    xptr: Seq<char>,
    s_x: Seq<char>,
    transposed: bool,
    bdx: int,
    idx: int,
) -> Seq<TokV> {
    if transposed {
        index_matrix_toks(xptr, s_x, bdx as usize, idx as usize)
    } else {
        index_matrix_toks(xptr, s_x, idx as usize, bdx as usize)
    }
}

/// The product step of accumulator `tids[idx]` with operand `yids[bdx]`,
/// masked by lane `idx` of `mask` when there is one.
pub open spec fn product_elem(
    mask: Option<Seq<char>>,
    tids: Seq<Seq<char>>,
    yids: Seq<Seq<char>>,
    xptr: Seq<char>,
    s_x: Seq<char>,
    transposed: bool,
    bdx: int,
    idx: int,
) -> Seq<TokV> {
    let addr = product_addr(xptr, s_x, transposed, bdx, idx);
    match mask {
        None => fma_assign_toks(tids[idx], addr, yids[bdx]),
        Some(m) => cfma_assign_toks(m, idx as usize, tids[idx], addr, yids[bdx]),
    }
}

/// The product steps for the first `rows` operands: for each operand, one
/// step per accumulator.
pub open spec fn product_toks(
    mask: Option<Seq<char>>,
    tids: Seq<Seq<char>>,
    yids: Seq<Seq<char>>,
    xptr: Seq<char>,
    s_x: Seq<char>,
    transposed: bool,
    rows: nat,
) -> Seq<Seq<TokV>> {
    grid(
        rows,
        tids.len(),
        |bdx: int, idx: int| product_elem(mask, tids, yids, xptr, s_x, transposed, bdx, idx),
    )
}

/// The product step of accumulator `idx` with operand `bdx`.
fn product_step(
    mask: Option<&Ident>,
    tids: &Vars,
    yids: &Vars,
    xptr: &Expr,
    s_x: &Expr,
    transposed: bool,
    bdx: usize,
    idx: usize,
) -> (r: TokenStream)
    requires
        bdx < yids@.len(),
        idx < tids@.len(),
    ensures
        r@ == product_elem(
            mask_view(mask),
            names(tids@),
            names(yids@),
            xptr@,
            s_x@,
            transposed,
            bdx as int,
            idx as int,
        ),
{
    let addr = if transposed {
        index_matrix(xptr, s_x, bdx, idx)
    } else {
        index_matrix(xptr, s_x, idx, bdx)
    };
    match mask {
        None => fma_assign(&tids[idx], &addr, &yids[bdx]),
        Some(m) => cfma_assign(m, idx, &tids[idx], &addr, &yids[bdx]),
    }
}

/// The product steps for the first `rows` operands.
fn product(
    mask: Option<&Ident>,
    tids: &Vars,
    yids: &Vars,
    xptr: &Expr,
    s_x: &Expr,
    transposed: bool,
    rows: usize,
) -> (r: Instr)
    requires
        rows <= yids@.len(),
    ensures
        stream_values(r@) == product_toks(
            mask_view(mask),
            names(tids@),
            names(yids@),
            xptr@,
            s_x@,
            transposed,
            rows as nat,
        ),
{
    let ghost mv = mask_view(mask);
    let ghost f = |bdx: int, idx: int| product_elem(mv, names(tids@), names(yids@), xptr@, s_x@, transposed, bdx, idx);
    let mut out: Instr = Vec::new();
    let n = tids.len();
    proof {
        lemma_grid_empty(n as nat, f);
    }
    let mut bdx: usize = 0;
    while bdx < rows
        invariant
            rows <= yids@.len(),
            n == tids@.len(),
            bdx <= rows,
            mv == mask_view(mask),
            f == (|b: int, i: int| product_elem(mv, names(tids@), names(yids@), xptr@, s_x@, transposed, b, i)),
            stream_values(out@) == grid(bdx as nat, n as nat, f),
        decreases rows - bdx,
    {
        let mut idx: usize = 0;
        while idx < n
            invariant
                rows <= yids@.len(),
                n == tids@.len(),
                bdx < rows,
                idx <= n,
                mv == mask_view(mask),
                f == (|b: int, i: int| product_elem(mv, names(tids@), names(yids@), xptr@, s_x@, transposed, b, i)),
                stream_values(out@) == grid(bdx as nat, n as nat, f) + Seq::new(
                    idx as nat,
                    |c: int| f(bdx as int, c),
                ),
            decreases n - idx,
        {
            let st = product_step(mask, tids, yids, xptr, s_x, transposed, bdx, idx);
            proof {
                lemma_concat_streams_push(out@, st);
                assert(Seq::new((idx + 1) as nat, |c: int| f(bdx as int, c)) =~= Seq::new(
                    idx as nat,
                    |c: int| f(bdx as int, c),
                ).push(st@));
            }
            out.push(st);
            idx = idx + 1;
        }
        proof {
            lemma_grid_push(bdx as nat, n as nat, f);
        }
        bdx = bdx + 1;
    }
    out
}

/// For each operand `yids[bdx]` and accumulator `tids[idx]`:
/// `#acc = fma_accum(#acc, <address of (idx, bdx)>, #b);` (`m` and `k` are
/// not used).
pub fn fma_product(tids: &Vars, yids: &Vars, xptr: &Expr, s_x: &Expr, m: usize, k: usize) -> (r:
    Instr)
    ensures
        stream_values(r@) == product_toks(None, names(tids@), names(yids@), xptr@, s_x@, false, yids@.len()),
{
    product(None, tids, yids, xptr, s_x, false, yids.len())
}

/// As [`fma_product`], reading element (`bdx`, `idx`).
pub fn fma_tproduct(tids: &Vars, yids: &Vars, xptr: &Expr, s_x: &Expr, m: usize, k: usize) -> (r:
    Instr)
    ensures
        stream_values(r@) == product_toks(None, names(tids@), names(yids@), xptr@, s_x@, true, yids@.len()),
{
    product(None, tids, yids, xptr, s_x, true, yids.len())
}

/// As [`fma_product`], each step masked by lane `idx` of `mask`:
/// `#acc = cfma_accum(#mask[idx], #acc, <address of (idx, bdx)>, #b);`.
pub fn mfma_product(
    mask: &Ident,
    tids: &Vars,
    yids: &Vars,
    xptr: &Expr,
    s_x: &Expr,
    i: usize,
    k: usize,
) -> (r: Instr)
    ensures
        stream_values(r@) == product_toks(Some(mask@), names(tids@), names(yids@), xptr@, s_x@, false, yids@.len()),
{
    product(Some(mask), tids, yids, xptr, s_x, false, yids.len())
}

/// As [`mfma_product`], reading element (`bdx`, `idx`).
pub fn mfma_tproduct(
    mask: &Ident,
    tids: &Vars,
    yids: &Vars,
    xptr: &Expr,
    s_x: &Expr,
    i: usize,
    k: usize,
) -> (r: Instr)
    ensures
        stream_values(r@) == product_toks(Some(mask@), names(tids@), names(yids@), xptr@, s_x@, true, yids@.len()),
{
    product(Some(mask), tids, yids, xptr, s_x, true, yids.len())
}

/// The stores of `write_outcome`: variable `idx` goes to row `idx`.
pub open spec fn write_outcome_toks(tids: Seq<Seq<char>>, tptr: Seq<char>, s_t: Seq<char>) -> Seq<
    Seq<TokV>,
> {
    Seq::new(
        tids.len(),
        |idx: int| store_toks(index_matrix_toks(tptr, s_t, idx as usize, 0), tids[idx]),
    )
}

/// Stores each accumulator `tids[idx]` to row `idx` of the matrix at `tptr`
/// (`m` is not used).
pub fn write_outcome(tids: &Vars, tptr: &Expr, s_t: &Expr, m: usize) -> (r: Instr)
    ensures
        stream_values(r@) == write_outcome_toks(names(tids@), tptr@, s_t@),
{
    let mut out: Instr = Vec::new();
    let mut idx: usize = 0;
    while idx < tids.len()
        invariant
            idx <= tids@.len(),
            stream_values(out@) == write_outcome_toks(names(tids@), tptr@, s_t@).subrange(0, idx as int),
        decreases tids@.len() - idx,
    {
        let addr = index_matrix(tptr, s_t, idx, 0);
        let st = store(&addr, &tids[idx]);
        proof {
            lemma_concat_streams_push(out@, st);
        }
        out.push(st);
        assert(write_outcome_toks(names(tids@), tptr@, s_t@).subrange(0, idx + 1) =~= write_outcome_toks(
            names(tids@),
            tptr@,
            s_t@,
        ).subrange(0, idx as int).push(st@));
        idx = idx + 1;
    }
    assert(write_outcome_toks(names(tids@), tptr@, s_t@).subrange(0, idx as int) =~= write_outcome_toks(
        names(tids@),
        tptr@,
        s_t@,
    ));
    out
}

/// The masked stores of `mwrite_outcome`: variable `idx` goes to row `idx`.
pub open spec fn mwrite_outcome_toks(
    mask_m: Seq<char>,
    mask_n: Seq<char>,
    tids: Seq<Seq<char>>,
    tptr: Seq<char>,
    s_t: Seq<char>,
) -> Seq<Seq<TokV>> {
    Seq::new(
        tids.len(),
        |idx: int|
            mstore_toks(
                mask_m,
                idx as usize,
                mask_n,
                index_matrix_toks(tptr, s_t, idx as usize, 0),
                tids[idx],
            ),
    )
}

/// Stores each accumulator `tids[idx]` to row `idx` of the matrix at `tptr`
/// under lane `idx` of `mask_m` and the column mask `mask_n` (`m` is not
/// used).
pub fn mwrite_outcome(
    mask_m: &Ident,
    mask_n: &Ident,
    tids: &Vars,
    tptr: &Expr,
    s_t: &Expr,
    m: usize,
) -> (r: Instr)
    ensures
        stream_values(r@) == mwrite_outcome_toks(mask_m@, mask_n@, names(tids@), tptr@, s_t@),
{
    let mut out: Instr = Vec::new();
    let mut idx: usize = 0;
    while idx < tids.len()
        invariant
            idx <= tids@.len(),
            stream_values(out@) == mwrite_outcome_toks(mask_m@, mask_n@, names(tids@), tptr@, s_t@).subrange(
                0,
                idx as int,
            ),
        decreases tids@.len() - idx,
    {
        let addr = index_matrix(tptr, s_t, idx, 0);
        let st = mstore(mask_m, idx, mask_n, &addr, &tids[idx]);
        proof {
            lemma_concat_streams_push(out@, st);
        }
        out.push(st);
        assert(mwrite_outcome_toks(mask_m@, mask_n@, names(tids@), tptr@, s_t@).subrange(0, idx + 1)
            =~= mwrite_outcome_toks(mask_m@, mask_n@, names(tids@), tptr@, s_t@).subrange(
            0,
            idx as int,
        ).push(st@));
        idx = idx + 1;
    }
    assert(mwrite_outcome_toks(mask_m@, mask_n@, names(tids@), tptr@, s_t@).subrange(0, idx as int)
        =~= mwrite_outcome_toks(mask_m@, mask_n@, names(tids@), tptr@, s_t@));
    out
}

/// The number of one bits of `n`.
pub open spec fn count_ones(n: nat) -> nat
    decreases n,
{
    if n == 0 {
        0
    } else {
        n % 2 + count_ones(n / 2)
    }
}

/// The number of binary digits of `n` (zero for zero).
pub open spec fn bit_length(n: nat) -> nat
    decreases n,
{
    if n == 0 {
        0
    } else {
        1 + bit_length(n / 2)
    }
}

/// The largest power of two strictly below `k` (zero when there is none).
pub open spec fn tail_start(k: nat) -> nat {
    if k <= 1 {
        0
    } else {
        pow2((bit_length((k - 1) as nat) - 1) as nat)
    }
}

/// `tail_start(k)` is the largest power of two below `k`: a power of two
/// `q` with `q < k <= 2 q` (and zero for `k = 1`).
pub proof fn lemma_tail_start_bounds(k: nat)
    requires
        k >= 1,
    ensures
        tail_start(k) < k,
        k >= 2 ==> k <= 2 * tail_start(k) && tail_start(k) == pow2(
            (bit_length((k - 1) as nat) - 1) as nat,
        ),
{
    if k >= 2 {
        lemma_bit_length_bounds((k - 1) as nat);
        lemma_pow2_unfold(bit_length((k - 1) as nat));
    }
}

/// Counts the one bits of `x`.
///
/// Calls `usize::count_ones`, which returns the number of ones in the binary
/// representation of `x`.
#[verifier::external_body]
fn usize_count_ones(x: usize) -> (r: u32)
    ensures
        r == count_ones(x as nat),
{
    x.count_ones()
}

/// Counts the leading zero bits of `x`.
///
/// Calls `usize::leading_zeros`, which returns the number of zeros before the
/// highest one bit of `x` in its `usize::BITS`-bit representation.
#[verifier::external_body]
fn usize_leading_zeros(x: usize) -> (r: u32)
    ensures
        r == usize::BITS - bit_length(x as nat),
{
    x.leading_zeros()
}

/// A positive `n` lies between the powers of two around its length.
pub proof fn lemma_bit_length_bounds(n: nat)
    requires
        n > 0,
    ensures
        bit_length(n) >= 1,
        pow2((bit_length(n) - 1) as nat) <= n < pow2(bit_length(n)),
    decreases n,
{
    let b = bit_length(n);
    lemma_pow2_unfold(b);
    if n == 1 {
        assert(bit_length(0) == 0);
        assert(pow2(0) == 1) by {
            vstd::arithmetic::power2::lemma2_to64();
        }
    } else {
        lemma_bit_length_bounds(n / 2);
        lemma_pow2_unfold((b - 1) as nat);
    }
}

/// Only one exponent puts `n` between two consecutive powers of two.
proof fn lemma_pow2_unique(a: nat, c: nat, n: nat)
    requires
        pow2(a) <= n < pow2(a + 1),
        pow2(c) <= n < pow2(c + 1),
    ensures
        a == c,
{
    if a < c {
        if a + 1 < c {
            lemma_pow2_strictly_increases(a + 1, c);
        }
    } else if c < a {
        if c + 1 < a {
            lemma_pow2_strictly_increases(c + 1, a);
        }
    }
}

/// A positive number has a one bit.
proof fn lemma_count_ones_positive(n: nat)
    requires
        n > 0,
    ensures
        count_ones(n) >= 1,
    decreases n,
{
    if n % 2 == 0 {
        lemma_count_ones_positive(n / 2);
    }
}

/// A positive number has exactly one one bit if and only if it is the power
/// of two below its length.
pub proof fn lemma_count_ones_one(n: nat)
    requires
        n > 0,
    ensures
        (count_ones(n) == 1) == (n == pow2((bit_length(n) - 1) as nat)),
    decreases n,
{
    lemma_bit_length_bounds(n);
    if n == 1 {
        assert(pow2(0) == 1) by {
            vstd::arithmetic::power2::lemma2_to64();
        }
        assert(count_ones(0) == 0);
        assert(count_ones(1) == 1);
        assert(bit_length(0) == 0);
        assert(bit_length(1) == 1);
    } else {
        let h = n / 2;
        lemma_count_ones_one(h);
        lemma_bit_length_bounds(h);
        let b = bit_length(n);
        assert(b == 1 + bit_length(h));
        lemma_pow2_unfold((b - 1) as nat);
        assert(count_ones(n) == n % 2 + count_ones(h));
        assert(pow2((b - 1) as nat) == 2 * pow2((bit_length(h) - 1) as nat));
        if n % 2 == 1 {
            lemma_count_ones_positive(h);
            assert(count_ones(n) != 1);
            assert(n != pow2((b - 1) as nat));
        } else {
            assert(n == 2 * h);
        }
    }
}

/// The largest power of two below `k`, for `k > 0`.
fn initialize_q(k: usize) -> (q: usize)
    requires
        k > 0,
    ensures
        q == tail_start(k as nat),
{
    proof {
        lemma_count_ones_one(k as nat);
        lemma_bit_length_bounds(k as nat);
        assert(count_ones(0) == 0);
        assert(count_ones(1) == 1);
    }
    let ghost b = bit_length(k as nat);
    if usize_count_ones(k) == 1 {
        let q = k >> 1;
        assert(q == k / 2) by (bit_vector)
            requires
                q == k >> 1,
        ;
        if k > 1 {
            proof {
            assert(b >= 2) by {
                if b < 2 {
                    assert(pow2(1) == 2) by {
                        vstd::arithmetic::power2::lemma2_to64();
                    }
                }
            }
            lemma_pow2_unfold((b - 1) as nat);
            lemma_pow2_pos((b - 2) as nat);
            lemma_bit_length_bounds((k - 1) as nat);
            let c = bit_length((k - 1) as nat);
            lemma_pow2_unfold(c);
            lemma_pow2_unique((c - 1) as nat, (b - 2) as nat, (k - 1) as nat);
            }
        }
        q
    } else {
        let lz = usize_leading_zeros(k);
        let s: usize = (usize::BITS - lz - 1) as usize;
        assert(s == b - 1);
        proof {
            lemma_usize_shl_is_mul(1, s);
            lemma_bit_length_bounds((k - 1) as nat);
            let c = bit_length((k - 1) as nat);
            lemma_pow2_unfold(c);
            lemma_pow2_unfold(b);
            lemma_pow2_unique((c - 1) as nat, (b - 1) as nat, (k - 1) as nat);
        }
        1usize << s
    }
}

/// The block sizes of a tail that starts with blocks of `q`: `q`, `q / 2`,
/// ..., `1`.
pub open spec fn halvings(q: nat) -> Seq<nat>
    decreases q,
{
    if q == 0 {
        seq![]
    } else {
        seq![q] + halvings(q / 2)
    }
}

/// `if #q & #p != 0`
pub open spec fn tail_guard(q: nat, p: Seq<char>) -> Seq<TokV> {
    seq![
        ident("if"@),
        TokV::Suffixed(q as usize),
        punct("&"@),
        TokV::Expr(p),
        punct("!="@),
        TokV::Unsuffixed(0),
    ]
}

/// `#name = #addr;` for a variable named `name`.
pub open spec fn assign_toks(name: Seq<char>, addr: Seq<TokV>) -> Seq<TokV> {
    seq![ident(name), punct("="@)] + addr + seq![punct(";"@)]
}

/// The operand loads of a tail block of `q`: `let #b = <load of row bdx>;`
/// for each `bdx < q`, masked by `mask_n` when there is one.
pub open spec fn tail_loads(
    mask_n: Option<Seq<char>>,
    yids: Seq<Seq<char>>,
    yptr: Seq<char>,
    s_y: Seq<char>,
    q: nat,
) -> Seq<Seq<TokV>> {
    Seq::new(
        q,
        |bdx: int|
            {
                let addr = index_matrix_toks(yptr, s_y, bdx as usize, 0);
                seq![ident("let"@), ident(yids[bdx]), punct("="@)] + match mask_n {
                    None => call_toks("_mm256_loadu_ps"@, addr),
                    Some(m) => call_toks("mask_load"@, seq![ident(m), punct(","@)] + addr),
                } + seq![punct(";"@)]
            },
    )
}

/// Where the left operand pointer moves after a block of `q`: `q` columns
/// on, or `q` rows on when transposed.
pub open spec fn tail_next_x(xptr: Seq<char>, s_x: Seq<char>, transposed: bool, q: nat) -> Seq<
    TokV,
> {
    if transposed {
        index_matrix_toks(xptr, s_x, q as usize, 0)
    } else {
        index_matrix_toks(xptr, s_x, 0, q as usize)
    }
}

/// The statements of the tail block of `q`: it loads `q` operand rows,
/// multiplies them into every accumulator and moves both pointers on by `q`.
/// Unmasked blocks move the variables `xptr` and `yptr`; masked ones
/// (`masks` = (`mask_m`, `mask_n`)) move the given pointer expressions.
pub open spec fn tail_body(
    masks: Option<(Seq<char>, Seq<char>)>,
    tids: Seq<Seq<char>>,
    yids: Seq<Seq<char>>,
    xptr: Seq<char>,
    yptr: Seq<char>,
    s_x: Seq<char>,
    s_y: Seq<char>,
    transposed: bool,
    q: nat,
) -> Seq<TokV> {
    let ny = index_matrix_toks(yptr, s_y, q as usize, 0);
    let nx = tail_next_x(xptr, s_x, transposed, q);
    match masks {
        None => tail_loads(None, yids, yptr, s_y, q).flatten() + product_toks(
            None,
            tids,
            yids,
            xptr,
            s_x,
            transposed,
            q,
        ).flatten() + assign_toks("xptr"@, nx) + assign_toks("yptr"@, ny),
        Some((mask_m, mask_n)) => tail_loads(Some(mask_n), yids, yptr, s_y, q).flatten()
            + increment_toks(yptr, ny) + product_toks(
            Some(mask_m),
            tids,
            yids,
            xptr,
            s_x,
            transposed,
            q,
        ).flatten() + increment_toks(xptr, nx),
    }
}

/// The tail block of `q`: its statements guarded by `q & p != 0`.
pub open spec fn tail_block(
    masks: Option<(Seq<char>, Seq<char>)>,
    tids: Seq<Seq<char>>,
    yids: Seq<Seq<char>>,
    xptr: Seq<char>,
    yptr: Seq<char>,
    s_x: Seq<char>,
    s_y: Seq<char>,
    p: Seq<char>,
    transposed: bool,
    q: nat,
) -> Seq<TokV> {
    tail_guard(q, p) + group(
        Delim::Brace,
        tail_body(masks, tids, yids, xptr, yptr, s_x, s_y, transposed, q),
    )
}

/// The tail blocks for the block sizes `qs`, in order.
pub open spec fn tail_toks(
    masks: Option<(Seq<char>, Seq<char>)>,
    tids: Seq<Seq<char>>,
    yids: Seq<Seq<char>>,
    xptr: Seq<char>,
    yptr: Seq<char>,
    s_x: Seq<char>,
    s_y: Seq<char>,
    p: Seq<char>,
    transposed: bool,
    qs: Seq<nat>,
) -> Seq<Seq<TokV>> {
    qs.map_values(
        |q: nat| tail_block(masks, tids, yids, xptr, yptr, s_x, s_y, p, transposed, q),
    )
}

/// The masks of a tail, as text.
pub open spec fn masks_view(masks: Option<(&Ident, &Ident)>) -> Option<(Seq<char>, Seq<char>)> {
    match masks {
        Some((m, n)) => Some((m@, n@)),
        None => None,
    }
}

/// The operand loads of a tail block of `q`.
fn tail_loads_of(mask_n: Option<&Ident>, yids: &Vars, yptr: &Expr, s_y: &Expr, q: usize) -> (r: Instr)
    requires
        q <= yids@.len(),
    ensures
        stream_values(r@) == tail_loads(mask_view(mask_n), names(yids@), yptr@, s_y@, q as nat),
{
    let ghost want = tail_loads(mask_view(mask_n), names(yids@), yptr@, s_y@, q as nat);
    let mut out: Instr = Vec::new();
    let mut bdx: usize = 0;
    while bdx < q
        invariant
            q <= yids@.len(),
            bdx <= q,
            want == tail_loads(mask_view(mask_n), names(yids@), yptr@, s_y@, q as nat),
            stream_values(out@) == want.subrange(0, bdx as int),
        decreases q - bdx,
    {
        let yaddr = index_matrix(yptr, s_y, bdx, 0);
        let mut st = TokenStream::new();
        st.push_ident("let");
        st.push_name(&yids[bdx]);
        st.push_punct("=");
        match mask_n {
            None => {
                st.append(&call("_mm256_loadu_ps", &yaddr));
            },
            Some(m) => {
                let mut args = TokenStream::new();
                args.push_name(m);
                args.push_punct(",");
                args.append(&yaddr);
                st.append(&call("mask_load", &args));
            },
        }
        st.push_punct(";");
        assert(st@ == want[bdx as int]);
        proof {
            lemma_concat_streams_push(out@, st);
        }
        out.push(st);
        assert(want.subrange(0, bdx + 1) =~= want.subrange(0, bdx as int).push(st@));
        bdx = bdx + 1;
    }
    assert(want.subrange(0, q as int) =~= want);
    out
}

/// Appends `#name = #addr;` for the variable `name`.
fn push_assign(out: &mut TokenStream, name: &Ident, addr: &TokenStream)
    ensures
        final(out)@ == old(out)@ + assign_toks(name@, addr@),
{
    out.push_name(name);
    out.push_punct("=");
    out.append(addr);
    out.push_punct(";");
}

/// Appends `#ptr = #addr;` for the pointer expression `ptr`.
fn push_increment(out: &mut TokenStream, ptr: &Expr, addr: &TokenStream)
    ensures
        final(out)@ == old(out)@ + increment_toks(ptr@, addr@),
{
    out.push_expr(ptr);
    out.push_punct("=");
    out.append(addr);
    out.push_punct(";");
}

/// The unmasked statements of the tail block of `q`.
fn tail_body_plain(
    tids: &Vars,
    yids: &Vars,
    xptr: &Expr,
    yptr: &Expr,
    s_x: &Expr,
    s_y: &Expr,
    transposed: bool,
    q: usize,
) -> (r: TokenStream)
    requires
        q <= yids@.len(),
    ensures
        r@ == tail_body(None, names(tids@), names(yids@), xptr@, yptr@, s_x@, s_y@, transposed, q as nat),
{
    let nyaddr = index_matrix(yptr, s_y, q, 0);
    let nxaddr = if transposed {
        index_matrix(xptr, s_x, q, 0)
    } else {
        index_matrix(xptr, s_x, 0, q)
    };
    let loads = tail_loads_of(None, yids, yptr, s_y, q);
    let fmas = product(None, tids, yids, xptr, s_x, transposed, q);
    let mut out = TokenStream::new();
    out.append_all(&loads);
    out.append_all(&fmas);
    push_assign(&mut out, &name("xptr"), &nxaddr);
    push_assign(&mut out, &name("yptr"), &nyaddr);
    out
}

/// The masked statements of the tail block of `q`.
fn tail_body_masked(
    mask_m: &Ident,
    mask_n: &Ident,
    tids: &Vars,
    yids: &Vars,
    xptr: &Expr,
    yptr: &Expr,
    s_x: &Expr,
    s_y: &Expr,
    transposed: bool,
    q: usize,
) -> (r: TokenStream)
    requires
        q <= yids@.len(),
    ensures
        r@ == tail_body(
            Some((mask_m@, mask_n@)),
            names(tids@),
            names(yids@),
            xptr@,
            yptr@,
            s_x@,
            s_y@,
            transposed,
            q as nat,
        ),
{
    let nyaddr = index_matrix(yptr, s_y, q, 0);
    let nxaddr = if transposed {
        index_matrix(xptr, s_x, q, 0)
    } else {
        index_matrix(xptr, s_x, 0, q)
    };
    let loads = tail_loads_of(Some(mask_n), yids, yptr, s_y, q);
    let fmas = product(Some(mask_m), tids, yids, xptr, s_x, transposed, q);
    let mut out = TokenStream::new();
    out.append_all(&loads);
    push_increment(&mut out, yptr, &nyaddr);
    out.append_all(&fmas);
    push_increment(&mut out, xptr, &nxaddr);
    out
}

/// The tail block of `q`.
fn tail_block_of(
    masks: Option<(&Ident, &Ident)>,
    tids: &Vars,
    yids: &Vars,
    xptr: &Expr,
    yptr: &Expr,
    s_x: &Expr,
    s_y: &Expr,
    p: &Expr,
    transposed: bool,
    q: usize,
) -> (r: TokenStream)
    requires
        q <= yids@.len(),
    ensures
        r@ == tail_block(
            masks_view(masks),
            names(tids@),
            names(yids@),
            xptr@,
            yptr@,
            s_x@,
            s_y@,
            p@,
            transposed,
            q as nat,
        ),
{
    let body = match masks {
        None => tail_body_plain(tids, yids, xptr, yptr, s_x, s_y, transposed, q),
        Some((mask_m, mask_n)) => tail_body_masked(
            mask_m,
            mask_n,
            tids,
            yids,
            xptr,
            yptr,
            s_x,
            s_y,
            transposed,
            q,
        ),
    };
    let mut out = TokenStream::new();
    out.push_ident("if");
    out.push_suffixed(q);
    out.push_punct("&");
    out.push_expr(p);
    out.push_punct("!=");
    out.push_unsuffixed(0);
    let mut grp = TokenStream::new();
    grp.append(&body);
    out.push_group(Delim::Brace, &grp);
    out
}

/// The tail blocks for `q`, `q / 2`, ..., `1`, with `q` the largest power of
/// two below `k`.
fn tail(
    masks: Option<(&Ident, &Ident)>,
    tids: &Vars,
    yids: &Vars,
    xptr: &Expr,
    yptr: &Expr,
    s_x: &Expr,
    s_y: &Expr,
    p: &Expr,
    transposed: bool,
    k: usize,
) -> (r: Instr)
    requires
        k > 0,
        tail_start(k as nat) <= yids@.len(),
    ensures
        stream_values(r@) == tail_toks(
            masks_view(masks),
            names(tids@),
            names(yids@),
            xptr@,
            yptr@,
            s_x@,
            s_y@,
            p@,
            transposed,
            halvings(tail_start(k as nat)),
        ),
{
    let ghost mv = masks_view(masks);
    let ghost want = tail_toks(
        mv,
        names(tids@),
        names(yids@),
        xptr@,
        yptr@,
        s_x@,
        s_y@,
        p@,
        transposed,
        halvings(tail_start(k as nat)),
    );
    let mut q = initialize_q(k);
    let mut out: Instr = Vec::new();
    assert(stream_values(out@) =~= Seq::<Seq<TokV>>::empty());
    while q > 0
        invariant
            q <= yids@.len(),
            mv == masks_view(masks),
            want == tail_toks(
                mv,
                names(tids@),
                names(yids@),
                xptr@,
                yptr@,
                s_x@,
                s_y@,
                p@,
                transposed,
                halvings(tail_start(k as nat)),
            ),
            stream_values(out@) + tail_toks(
                mv,
                names(tids@),
                names(yids@),
                xptr@,
                yptr@,
                s_x@,
                s_y@,
                p@,
                transposed,
                halvings(q as nat),
            ) == want,
        decreases q,
    {
        let st = tail_block_of(masks, tids, yids, xptr, yptr, s_x, s_y, p, transposed, q);
        proof {
            lemma_concat_streams_push(out@, st);
            let rest = halvings((q / 2) as nat);
            assert(halvings(q as nat) == seq![q as nat] + rest);
            assert(tail_toks(mv, names(tids@), names(yids@), xptr@, yptr@, s_x@, s_y@, p@, transposed, halvings(q as nat))
                =~= seq![st@] + tail_toks(mv, names(tids@), names(yids@), xptr@, yptr@, s_x@, s_y@, p@, transposed, rest));
            assert(stream_values(out@).push(st@) + tail_toks(mv, names(tids@), names(yids@), xptr@, yptr@, s_x@, s_y@, p@, transposed, rest)
                =~= stream_values(out@) + tail_toks(mv, names(tids@), names(yids@), xptr@, yptr@, s_x@, s_y@, p@, transposed, halvings(q as nat)));
        }
        out.push(st);
        let nq = q >> 1;
        assert(nq == q / 2) by (bit_vector)
            requires
                nq == q >> 1,
        ;
        q = nq;
    }
    assert(halvings(0) =~= Seq::<nat>::empty());
    assert(stream_values(out@) =~= want);
    out
}

/// The tail of a reduction over `p` steps whose main loop takes `k` steps
/// at a time: for each power of two `q` below `k`, largest first, a block
/// `if q & p != 0 { .. }` that loads `q` operand rows from `yptr`, adds their
/// products into every accumulator and moves the variables `xptr` (by `q`
/// columns) and `yptr` (by `q` rows) on.
pub fn handle_tail(
    tids: &Vars,
    yids: &Vars,
    xptr: &Expr,
    yptr: &Expr,
    s_x: &Expr,
    s_y: &Expr,
    p: &Expr,
    k: usize,
) -> (r: Instr)
    requires
        k > 0,
        tail_start(k as nat) <= yids@.len(),
    ensures
        stream_values(r@) == tail_toks(
            None,
            names(tids@),
            names(yids@),
            xptr@,
            yptr@,
            s_x@,
            s_y@,
            p@,
            false,
            halvings(tail_start(k as nat)),
        ),
{
    tail(None, tids, yids, xptr, yptr, s_x, s_y, p, false, k)
}

/// As [`handle_tail`] for a transposed left operand: products read element
/// (`bdx`, `idx`) and `xptr` moves on by `q` rows.
pub fn thandle_tail(
    tids: &Vars,
    yids: &Vars,
    xptr: &Expr,
    yptr: &Expr,
    s_x: &Expr,
    s_y: &Expr,
    p: &Expr,
    k: usize,
) -> (r: Instr)
    requires
        k > 0,
        tail_start(k as nat) <= yids@.len(),
    ensures
        stream_values(r@) == tail_toks(
            None,
            names(tids@),
            names(yids@),
            xptr@,
            yptr@,
            s_x@,
            s_y@,
            p@,
            true,
            halvings(tail_start(k as nat)),
        ),
{
    tail(None, tids, yids, xptr, yptr, s_x, s_y, p, true, k)
}

/// As [`handle_tail`] with masks: operand rows load under `mask_n`, each
/// product is masked by its accumulator's lane of `mask_m`, and the pointer
/// expressions `yptr` and `xptr` themselves move on.
pub fn mhandle_tail(
    mask_m: &Ident,
    mask_n: &Ident,
    tids: &Vars,
    yids: &Vars,
    xptr: &Expr,
    yptr: &Expr,
    s_x: &Expr,
    s_y: &Expr,
    p: &Expr,
    k: usize,
) -> (r: Instr)
    requires
        k > 0,
        tail_start(k as nat) <= yids@.len(),
    ensures
        stream_values(r@) == tail_toks(
            Some((mask_m@, mask_n@)),
            names(tids@),
            names(yids@),
            xptr@,
            yptr@,
            s_x@,
            s_y@,
            p@,
            false,
            halvings(tail_start(k as nat)),
        ),
{
    tail(Some((mask_m, mask_n)), tids, yids, xptr, yptr, s_x, s_y, p, false, k)
}

/// As [`mhandle_tail`] for a transposed left operand.
pub fn tmhandle_tail(
    mask_m: &Ident,
    mask_n: &Ident,
    tids: &Vars,
    yids: &Vars,
    xptr: &Expr,
    yptr: &Expr,
    s_x: &Expr,
    s_y: &Expr,
    p: &Expr,
    k: usize,
) -> (r: Instr)
    requires
        k > 0,
        tail_start(k as nat) <= yids@.len(),
    ensures
        stream_values(r@) == tail_toks(
            Some((mask_m@, mask_n@)),
            names(tids@),
            names(yids@),
            xptr@,
            yptr@,
            s_x@,
            s_y@,
            p@,
            true,
            halvings(tail_start(k as nat)),
        ),
{
    tail(Some((mask_m, mask_n)), tids, yids, xptr, yptr, s_x, s_y, p, true, k)
}

/// The sum of the block sizes `q` among `qs` whose guard `q & r != 0` holds
/// at run time, for a remainder `r`.
pub open spec fn guarded_total(qs: Seq<nat>, r: usize) -> nat
    decreases qs.len(),
{
    if qs.len() == 0 {
        0
    } else {
        (if (qs[0] as usize) & r != 0 {
            qs[0]
        } else {
            0
        }) + guarded_total(qs.drop_first(), r)
    }
}

/// The guard of the block of `2^j` tests bit `j` of `r`.
proof fn lemma_guard_bit(j: nat, r: usize)
    requires
        j < usize::BITS,
    ensures
        pow2(j) <= usize::MAX,
        (((pow2(j) as usize) & r) != 0) == ((r as nat / pow2(j)) % 2 == 1),
{
    let jj = j as usize;
    lemma_usize_pow2_no_overflow(j);
    lemma_usize_shl_is_mul(1, jj);
    lemma_usize_shr_is_div(r, jj);
    let b = 1usize << jj;
    assert((((1usize << jj) & r) != 0) == (((r >> jj) & 1) == 1)) by (bit_vector)
        requires
            jj < usize::BITS,
    ;
    let sh = r >> jj;
    assert((sh & 1) == sh % 2) by (bit_vector);
}

/// The blocks `2^j, ..., 2, 1` whose guards hold add up to the low `j + 1`
/// bits of `r`.
proof fn lemma_halvings_total(j: nat, r: usize)
    requires
        j < usize::BITS,
    ensures
        guarded_total(halvings(pow2(j)), r) == r as nat % pow2(j + 1),
    decreases j,
{
    let q = pow2(j);
    lemma_pow2_pos(j);
    lemma_pow2_unfold(j + 1);
    lemma_guard_bit(j, r);
    let hs = halvings(q);
    assert(hs == seq![q] + halvings(q / 2));
    assert(hs.drop_first() =~= halvings(q / 2));
    lemma_mod_breakdown(r as int, q as int, 2);
    let bit = (r as nat / q) % 2;
    if bit == 1 {
        assert(q * bit == q);
    } else {
        assert(bit == 0);
        assert(q * bit == 0);
    }
    assert(guarded_total(hs, r) == (if (q as usize) & r != 0 {
        q
    } else {
        0
    }) + guarded_total(hs.drop_first(), r));
    if j == 0 {
        assert(q == 1) by {
            vstd::arithmetic::power2::lemma2_to64();
        }
        assert(halvings(0) =~= Seq::<nat>::empty());
        assert(guarded_total(halvings(0), r) == 0);
        assert(r as nat % 1 == 0);
    } else {
        lemma_pow2_unfold(j);
        lemma_halvings_total((j - 1) as nat, r);
        assert(q / 2 == pow2((j - 1) as nat));
    }
}

/// The tail that starts at the largest power of two below `k` covers every
/// remainder below `k`: for `r < k`, the blocks whose guard `q & r != 0`
/// holds add up to exactly `r` steps.
pub proof fn lemma_tail_covers_remainder(k: usize, r: usize)
    requires
        r < k,
    ensures
        guarded_total(halvings(tail_start(k as nat)), r) == r,
{
    if k <= 1 {
        assert(halvings(0) =~= Seq::<nat>::empty());
    } else {
        lemma_bit_length_bounds((k - 1) as nat);
        let c = bit_length((k - 1) as nat);
        let j = (c - 1) as nat;
        lemma_pow2_unfold(c);
        assert(j < usize::BITS) by {
            vstd::arithmetic::power2::lemma2_to64();
            assert(pow2(usize::BITS as nat) == usize::MAX + 1);
            if j > usize::BITS {
                lemma_pow2_strictly_increases(usize::BITS as nat, j);
            }
        }
        lemma_halvings_total(j, r);
        assert(r as nat % pow2(j + 1) == r) by {
            vstd::arithmetic::div_mod::lemma_small_mod(r as nat, pow2(j + 1));
        }
    }
}

/// The product step of accumulator `tids[idx]` with the operand `b` and
/// the element in row `idx`, column 0 of the left operand, masked by lane
/// `idx` of `mask` when there is one.
pub open spec fn col_fma_elem(
    mask: Option<Seq<char>>,
    tids: Seq<Seq<char>>,
    xptr: Seq<char>,
    s_x: Seq<char>,
    b: Seq<char>,
    idx: int,
) -> Seq<TokV> {
    let addr = index_matrix_toks(xptr, s_x, idx as usize, 0);
    match mask {
        None => fma_assign_toks(tids[idx], addr, b),
        Some(m) => cfma_assign_toks(m, idx as usize, tids[idx], addr, b),
    }
}

/// The column product steps for the accumulators `lo .. hi`.
pub open spec fn col_fmas(
    mask: Option<Seq<char>>,
    tids: Seq<Seq<char>>,
    xptr: Seq<char>,
    s_x: Seq<char>,
    b: Seq<char>,
    lo: int,
    hi: int,
) -> Seq<Seq<TokV>> {
    Seq::new((hi - lo) as nat, |c: int| col_fma_elem(mask, tids, xptr, s_x, b, lo + c))
}

/// `let #b = mask_load(#mask, #ptr);`
pub open spec fn mask_load_let(b: Seq<char>, mask: Seq<char>, ptr: Seq<char>) -> Seq<TokV> {
    seq![ident("let"@), ident(b), punct("="@)] + call_toks(
        "mask_load"@,
        seq![ident(mask), punct(","@), TokV::Expr(ptr)],
    ) + seq![punct(";"@)]
}

/// `#mask[#i] = 0;` for a loop variable `i`.
pub open spec fn clear_lane_toks(mask: Seq<char>, i: Seq<char>) -> Seq<TokV> {
    seq![ident(mask)] + group(Delim::Bracket, seq![ident(i)]) + seq![
        punct("="@),
        TokV::Unsuffixed(0),
        punct(";"@),
    ]
}

/// The column product steps for the accumulators `lo .. hi`.
fn col_fmas_of(
    mask: Option<&Ident>,
    tids: &Vars,
    xptr: &Expr,
    s_x: &Expr,
    b: &Ident,
    lo: usize,
    hi: usize,
) -> (r: Instr)
    requires
        lo <= hi <= tids@.len(),
    ensures
        stream_values(r@) == col_fmas(mask_view(mask), names(tids@), xptr@, s_x@, b@, lo as int, hi as int),
{
    let ghost want = col_fmas(mask_view(mask), names(tids@), xptr@, s_x@, b@, lo as int, hi as int);
    let mut out: Instr = Vec::new();
    let mut idx: usize = lo;
    while idx < hi
        invariant
            lo <= idx <= hi,
            hi <= tids@.len(),
            want == col_fmas(mask_view(mask), names(tids@), xptr@, s_x@, b@, lo as int, hi as int),
            stream_values(out@) == want.subrange(0, idx - lo),
        decreases hi - idx,
    {
        let addr = index_matrix(xptr, s_x, idx, 0);
        let st = match mask {
            None => fma_assign(&tids[idx], &addr, b),
            Some(m) => cfma_assign(m, idx, &tids[idx], &addr, b),
        };
        assert(st@ == want[idx - lo]);
        proof {
            lemma_concat_streams_push(out@, st);
        }
        out.push(st);
        assert(want.subrange(0, idx + 1 - lo) =~= want.subrange(0, idx - lo).push(st@));
        idx = idx + 1;
    }
    assert(want.subrange(0, hi - lo) =~= want);
    out
}

/// Appends `let #b = mask_load(#mask, #ptr);`.
fn push_mask_load_let(out: &mut TokenStream, b: &Ident, mask: &Ident, ptr: &Expr)
    ensures
        final(out)@ == old(out)@ + mask_load_let(b@, mask@, ptr@),
{
    let mut args = TokenStream::new();
    args.push_name(mask);
    args.push_punct(",");
    args.push_expr(ptr);
    out.push_ident("let");
    out.push_name(b);
    out.push_punct("=");
    out.append(&call("mask_load", &args));
    out.push_punct(";");
}

/// Appends `#mask[#i] = 0;`.
fn push_clear_lane(out: &mut TokenStream, mask: &Ident, i: &str)
    ensures
        final(out)@ == old(out)@ + clear_lane_toks(mask@, i@),
{
    out.push_name(mask);
    let mut grp = TokenStream::new();
    grp.push_ident(i);
    out.push_group(Delim::Bracket, &grp);
    out.push_punct("=");
    out.push_unsuffixed(0);
    out.push_punct(";");
}

/// The loop of `unalligned_lhandle_lowtri`.
pub open spec fn unalligned_lowtri_toks(
    thresh: Seq<char>,
    mask_t: Seq<char>,
    mask_n: Seq<char>,
    tids: Seq<Seq<char>>,
    xptr: Seq<char>,
    yptr: Seq<char>,
    s_x: Seq<char>,
    s_y: Seq<char>,
    b: Seq<char>,
) -> Seq<TokV> {
    seq![ident("for"@), ident("k"@), ident("in"@), TokV::Unsuffixed(0), punct(".."@), ident(thresh)]
        + group(
        Delim::Brace,
        mask_load_let(b, mask_n, yptr) + increment_toks(yptr, index_matrix_toks(yptr, s_y, 1, 0))
            + col_fmas(Some(mask_t), tids, xptr, s_x, b, 0, tids.len() as int).flatten()
            + clear_lane_toks(mask_t, "k"@) + increment_toks(
            xptr,
            index_matrix_toks(xptr, s_x, 0, 1),
        ),
    )
}

/// A loop over the first `thresh` columns of a lower-triangular left
/// operand: each pass loads an operand row under `mask_n`, moves `yptr` on,
/// adds the masked column products into every accumulator, clears lane `k`
/// of `mask_t` and moves `xptr` one column on (`m` is not used).
pub fn unalligned_lhandle_lowtri(
    thresh: &Ident,
    mask_t: &Ident,
    mask_n: &Ident,
    tids: &Vars,
    xptr: &Expr,
    yptr: &Expr,
    s_x: &Expr,
    s_y: &Expr,
    b: &Ident,
    m: usize,
) -> (r: TokenStream)
    ensures
        r@ == unalligned_lowtri_toks(
            thresh@,
            mask_t@,
            mask_n@,
            names(tids@),
            xptr@,
            yptr@,
            s_x@,
            s_y@,
            b@,
        ),
{
    let fmas = col_fmas_of(Some(mask_t), tids, xptr, s_x, b, 0, tids.len());
    let ynaddr = index_matrix(yptr, s_y, 1, 0);
    let xnaddr = index_matrix(xptr, s_x, 0, 1);
    let mut body = TokenStream::new();
    push_mask_load_let(&mut body, b, mask_n, yptr);
    push_increment(&mut body, yptr, &ynaddr);
    body.append_all(&fmas);
    push_clear_lane(&mut body, mask_t, "k");
    push_increment(&mut body, xptr, &xnaddr);
    let mut out = TokenStream::new();
    out.push_ident("for");
    out.push_ident("k");
    out.push_ident("in");
    out.push_unsuffixed(0);
    out.push_punct("..");
    out.push_name(thresh);
    let mut grp = TokenStream::new();
    grp.append(&body);
    out.push_group(Delim::Brace, &grp);
    out
}

/// Block `i` of `lhandle_lowtri` among `m`: loads an operand row under
/// `mask_n`, adds the column products into the accumulators `i .. m` and,
/// unless it is the last block, moves `xptr` a column and `yptr` a row on.
pub open spec fn lowtri_block(
    mask_n: Seq<char>,
    tids: Seq<Seq<char>>,
    xptr: Seq<char>,
    yptr: Seq<char>,
    s_x: Seq<char>,
    s_y: Seq<char>,
    b: Seq<char>,
    m: int,
    i: int,
) -> Seq<TokV> {
    let head = mask_load_let(b, mask_n, yptr) + col_fmas(None, tids, xptr, s_x, b, i, m).flatten();
    if i + 1 < m {
        group(
            Delim::Brace,
            head + increment_toks(xptr, index_matrix_toks(xptr, s_x, 0, 1)) + increment_toks(
                yptr,
                index_matrix_toks(yptr, s_y, 1, 0),
            ),
        )
    } else {
        group(Delim::Brace, head)
    }
}

/// Block `i` of `lhandle_uptri`: loads an operand row under `mask_n`, adds
/// the column products into the accumulators `0 ..= i`, and moves `xptr` a
/// column and `yptr` a row on.
pub open spec fn uptri_block(
    mask_n: Seq<char>,
    tids: Seq<Seq<char>>,
    xptr: Seq<char>,
    yptr: Seq<char>,
    s_x: Seq<char>,
    s_y: Seq<char>,
    b: Seq<char>,
    i: int,
) -> Seq<TokV> {
    group(
        Delim::Brace,
        mask_load_let(b, mask_n, yptr) + col_fmas(None, tids, xptr, s_x, b, 0, i + 1).flatten()
            + increment_toks(xptr, index_matrix_toks(xptr, s_x, 0, 1)) + increment_toks(
            yptr,
            index_matrix_toks(yptr, s_y, 1, 0),
        ),
    )
}

/// One block of a triangular left operand: `lower` selects the blocks of
/// `lhandle_lowtri`, otherwise those of `lhandle_uptri`.
fn tri_block(
    lower: bool,
    mask_n: &Ident,
    tids: &Vars,
    xptr: &Expr,
    yptr: &Expr,
    s_x: &Expr,
    s_y: &Expr,
    b: &Ident,
    m: usize,
    i: usize,
) -> (r: TokenStream)
    requires
        i < m <= tids@.len(),
    ensures
        lower ==> r@ == lowtri_block(mask_n@, names(tids@), xptr@, yptr@, s_x@, s_y@, b@, m as int, i as int),
        !lower ==> r@ == uptri_block(mask_n@, names(tids@), xptr@, yptr@, s_x@, s_y@, b@, i as int),
{
    let fmas = if lower {
        col_fmas_of(None, tids, xptr, s_x, b, i, m)
    } else {
        col_fmas_of(None, tids, xptr, s_x, b, 0, i + 1)
    };
    let nyaddr = index_matrix(yptr, s_y, 1, 0);
    let nxaddr = index_matrix(xptr, s_x, 0, 1);
    let mut body = TokenStream::new();
    push_mask_load_let(&mut body, b, mask_n, yptr);
    body.append_all(&fmas);
    if !lower || i + 1 < m {
        push_increment(&mut body, xptr, &nxaddr);
        push_increment(&mut body, yptr, &nyaddr);
    }
    let mut out = TokenStream::new();
    let mut grp = TokenStream::new();
    grp.append(&body);
    out.push_group(Delim::Brace, &grp);
    out
}

/// The `m` blocks of a triangular left operand.
fn tri_blocks(
    lower: bool,
    mask_n: &Ident,
    tids: &Vars,
    xptr: &Expr,
    yptr: &Expr,
    s_x: &Expr,
    s_y: &Expr,
    b: &Ident,
    m: usize,
) -> (r: Instr)
    requires
        m <= tids@.len(),
    ensures
        lower ==> stream_values(r@) == Seq::new(
            m as nat,
            |i: int| lowtri_block(mask_n@, names(tids@), xptr@, yptr@, s_x@, s_y@, b@, m as int, i),
        ),
        !lower ==> stream_values(r@) == Seq::new(
            m as nat,
            |i: int| uptri_block(mask_n@, names(tids@), xptr@, yptr@, s_x@, s_y@, b@, i),
        ),
{
    let ghost lo = Seq::new(
        m as nat,
        |i: int| lowtri_block(mask_n@, names(tids@), xptr@, yptr@, s_x@, s_y@, b@, m as int, i),
    );
    let ghost up = Seq::new(
        m as nat,
        |i: int| uptri_block(mask_n@, names(tids@), xptr@, yptr@, s_x@, s_y@, b@, i),
    );
    let mut out: Instr = Vec::new();
    let mut i: usize = 0;
    while i < m
        invariant
            i <= m <= tids@.len(),
            lo == Seq::new(
                m as nat,
                |i: int| lowtri_block(mask_n@, names(tids@), xptr@, yptr@, s_x@, s_y@, b@, m as int, i),
            ),
            up == Seq::new(
                m as nat,
                |i: int| uptri_block(mask_n@, names(tids@), xptr@, yptr@, s_x@, s_y@, b@, i),
            ),
            lower ==> stream_values(out@) == lo.subrange(0, i as int),
            !lower ==> stream_values(out@) == up.subrange(0, i as int),
        decreases m - i,
    {
        let st = tri_block(lower, mask_n, tids, xptr, yptr, s_x, s_y, b, m, i);
        proof {
            lemma_concat_streams_push(out@, st);
            assert(lo.subrange(0, i + 1) =~= lo.subrange(0, i as int).push(lo[i as int]));
            assert(up.subrange(0, i + 1) =~= up.subrange(0, i as int).push(up[i as int]));
        }
        out.push(st);
        i = i + 1;
    }
    assert(lo.subrange(0, m as int) =~= lo);
    assert(up.subrange(0, m as int) =~= up);
    out
}

/// The `m` blocks for a lower-triangular left operand `L` in `L * A`:
/// block `i` loads an operand row under `mask_n` and adds column `i` of `L`
/// into the accumulators `i .. m`; every block but the last then moves
/// `xptr` a column and `yptr` a row on.
pub fn lhandle_lowtri(
    mask_n: &Ident,
    tids: &Vars,
    xptr: &Expr,
    yptr: &Expr,
    s_x: &Expr,
    s_y: &Expr,
    b: &Ident,
    m: usize,
) -> (r: Instr)
    requires
        m <= tids@.len(),
    ensures
        stream_values(r@) == Seq::new(
            m as nat,
            |i: int| lowtri_block(mask_n@, names(tids@), xptr@, yptr@, s_x@, s_y@, b@, m as int, i),
        ),
{
    tri_blocks(true, mask_n, tids, xptr, yptr, s_x, s_y, b, m)
}

/// The `m` blocks for an upper-triangular left operand `U` in `U * A`:
/// block `i` loads an operand row under `mask_n`, adds column `i` of `U`
/// into the accumulators `0 ..= i`, and moves `xptr` a column and `yptr` a
/// row on.
pub fn lhandle_uptri(
    mask_n: &Ident,
    tids: &Vars,
    xptr: &Expr,
    yptr: &Expr,
    s_x: &Expr,
    s_y: &Expr,
    b: &Ident,
    m: usize,
) -> (r: Instr)
    requires
        m <= tids@.len(),
    ensures
        stream_values(r@) == Seq::new(
            m as nat,
            |i: int| uptri_block(mask_n@, names(tids@), xptr@, yptr@, s_x@, s_y@, b@, i),
        ),
{
    tri_blocks(false, mask_n, tids, xptr, yptr, s_x, s_y, b, m)
}

/// The loop of `rhandle_lowtrie`.
pub open spec fn rlowtri_toks(
    mask_t: Seq<char>,
    mask_n: Seq<char>,
    tids: Seq<Seq<char>>,
    xptr: Seq<char>,
    yptr: Seq<char>,
    s_x: Seq<char>,
    s_y: Seq<char>,
    h: Seq<char>,
    b: Seq<char>,
) -> Seq<TokV> {
    seq![ident("for"@), ident("i"@), ident("in"@), TokV::Unsuffixed(0), punct(".."@), ident(h)]
        + group(
        Delim::Brace,
        seq![ident(mask_t)] + group(Delim::Bracket, seq![ident("i"@)]) + seq![
            punct("="@),
            ident(mask_n),
        ] + group(Delim::Bracket, seq![ident("i"@)]) + seq![punct(";"@)] + mask_load_let(
            b,
            mask_t,
            yptr,
        ) + col_fmas(Some(mask_t), tids, xptr, s_x, b, 0, tids.len() as int).flatten()
            + increment_toks(yptr, index_matrix_toks(yptr, s_y, 1, 0)) + increment_toks(
            xptr,
            index_matrix_toks(xptr, s_x, 0, 1),
        ),
    )
}

/// For `A * L` with `L` lower triangular: a loop over the top `h` rows of
/// the `L` column slice; pass `i` copies lane `i` of `mask_n` into
/// `mask_t`, loads an operand row under `mask_t`, adds the masked column
/// products into every accumulator and moves `yptr` a row and `xptr` a
/// column on.
pub fn rhandle_lowtrie(
    mask_t: &Ident,
    mask_n: &Ident,
    tids: &Vars,
    xptr: &Expr,
    yptr: &Expr,
    s_x: &Expr,
    s_y: &Expr,
    h: &Ident,
    b: &Ident,
) -> (r: TokenStream)
    ensures
        r@ == rlowtri_toks(mask_t@, mask_n@, names(tids@), xptr@, yptr@, s_x@, s_y@, h@, b@),
{
    let fmas = col_fmas_of(Some(mask_t), tids, xptr, s_x, b, 0, tids.len());
    let ynaddr = index_matrix(yptr, s_y, 1, 0);
    let xnaddr = index_matrix(xptr, s_x, 0, 1);
    let mut body = TokenStream::new();
    body.push_name(mask_t);
    let mut grp = TokenStream::new();
    grp.push_ident("i");
    body.push_group(Delim::Bracket, &grp);
    body.push_punct("=");
    body.push_name(mask_n);
    let mut grp = TokenStream::new();
    grp.push_ident("i");
    body.push_group(Delim::Bracket, &grp);
    body.push_punct(";");
    push_mask_load_let(&mut body, b, mask_t, yptr);
    body.append_all(&fmas);
    push_increment(&mut body, yptr, &ynaddr);
    push_increment(&mut body, xptr, &xnaddr);
    let mut out = TokenStream::new();
    out.push_ident("for");
    out.push_ident("i");
    out.push_ident("in");
    out.push_unsuffixed(0);
    out.push_punct("..");
    out.push_name(h);
    let mut grp = TokenStream::new();
    grp.append(&body);
    out.push_group(Delim::Brace, &grp);
    out
}

/// The loop of `rhandle_uptri`.
pub open spec fn ruptri_toks(
    mask_n: Seq<char>,
    mask_t: Seq<char>,
    tids: Seq<Seq<char>>,
    xptr: Seq<char>,
    yptr: Seq<char>,
    s_x: Seq<char>,
    s_y: Seq<char>,
    h: Seq<char>,
    b: Seq<char>,
) -> Seq<TokV> {
    seq![ident("for"@), ident("j"@), ident("in"@)] + group(
        Delim::Paren,
        seq![TokV::Unsuffixed(0), punct(".."@), ident(h)],
    ) + seq![punct("."@), ident("rev"@)] + group(Delim::Paren, Seq::<TokV>::empty()) + group(
        Delim::Brace,
        mask_load_let(b, mask_t, yptr) + col_fmas(
            Some(mask_t),
            tids,
            xptr,
            s_x,
            b,
            0,
            tids.len() as int,
        ).flatten() + increment_toks(yptr, index_matrix_toks(yptr, s_y, 1, 0)) + increment_toks(
            xptr,
            index_matrix_toks(xptr, s_x, 0, 1),
        ) + clear_lane_toks(mask_t, "j"@),
    )
}

/// For `A * U` with `U` upper triangular: a loop over the top `h` rows of
/// the `U` row slice, last first; pass `j` loads an operand row under
/// `mask_t`, adds the masked column products into every accumulator, moves
/// `yptr` a row and `xptr` a column on and clears lane `j` of `mask_t`
/// (`mask_n` is not used).
pub fn rhandle_uptri(
    mask_n: &Ident,
    mask_t: &Ident,
    tids: &Vars,
    xptr: &Expr,
    yptr: &Expr,
    s_x: &Expr,
    s_y: &Expr,
    h: &Ident,
    b: &Ident,
) -> (r: TokenStream)
    ensures
        r@ == ruptri_toks(mask_n@, mask_t@, names(tids@), xptr@, yptr@, s_x@, s_y@, h@, b@),
{
    let fmas = col_fmas_of(Some(mask_t), tids, xptr, s_x, b, 0, tids.len());
    let ynaddr = index_matrix(yptr, s_y, 1, 0);
    let xnaddr = index_matrix(xptr, s_x, 0, 1);
    let mut body = TokenStream::new();
    push_mask_load_let(&mut body, b, mask_t, yptr);
    body.append_all(&fmas);
    push_increment(&mut body, yptr, &ynaddr);
    push_increment(&mut body, xptr, &xnaddr);
    push_clear_lane(&mut body, mask_t, "j");
    let mut out = TokenStream::new();
    out.push_ident("for");
    out.push_ident("j");
    out.push_ident("in");
    let mut grp = TokenStream::new();
    grp.push_unsuffixed(0);
    grp.push_punct("..");
    grp.push_name(h);
    out.push_group(Delim::Paren, &grp);
    out.push_punct(".");
    out.push_ident("rev");
    let mut grp = TokenStream::new();
    out.push_group(Delim::Paren, &grp);
    let mut grp = TokenStream::new();
    grp.append(&body);
    out.push_group(Delim::Brace, &grp);
    out
}

/// A masked tail block of `q` whose product steps are `prod` and whose left
/// operand pointer moves to `nx`: the guard, the operand loads under
/// `mask_n`, the move of `yptr`, the products and the move of `xptr`.
pub open spec fn masked_tail_block(
    mask_n: Seq<char>,
    yids: Seq<Seq<char>>,
    xptr: Seq<char>,
    yptr: Seq<char>,
    s_y: Seq<char>,
    p: Seq<char>,
    q: nat,
    prod: Seq<TokV>,
    nx: Seq<TokV>,
) -> Seq<TokV> {
    tail_guard(q, p) + group(
        Delim::Brace,
        tail_loads(Some(mask_n), yids, yptr, s_y, q).flatten() + increment_toks(
            yptr,
            index_matrix_toks(yptr, s_y, q as usize, 0),
        ) + prod + increment_toks(xptr, nx),
    )
}

/// `mhandle_tail` and `tmhandle_tail` on the same arguments give the same
/// number of blocks, and block by block the same guard, the same masked
/// operand loads and the same move of `yptr`: they differ only in how the
/// left operand is read (element (`idx`, `bdx`), or (`bdx`, `idx`)) and in
/// how `xptr` moves on (by `q` columns, or by `q` rows).
pub proof fn lemma_masked_tails_differ_only_in_x(
    mask_m: Seq<char>,
    mask_n: Seq<char>,
    tids: Seq<Seq<char>>,
    yids: Seq<Seq<char>>,
    xptr: Seq<char>,
    yptr: Seq<char>,
    s_x: Seq<char>,
    s_y: Seq<char>,
    p: Seq<char>,
    k: nat,
)
    ensures
        ({
            let qs = halvings(tail_start(k));
            let plain = tail_toks(Some((mask_m, mask_n)), tids, yids, xptr, yptr, s_x, s_y, p, false, qs);
            let trans = tail_toks(Some((mask_m, mask_n)), tids, yids, xptr, yptr, s_x, s_y, p, true, qs);
            &&& plain.len() == qs.len()
            &&& trans.len() == qs.len()
            &&& forall|j: int|
                0 <= j < qs.len() ==> #[trigger] plain[j] == masked_tail_block(
                    mask_n,
                    yids,
                    xptr,
                    yptr,
                    s_y,
                    p,
                    qs[j],
                    product_toks(Some(mask_m), tids, yids, xptr, s_x, false, qs[j]).flatten(),
                    index_matrix_toks(xptr, s_x, 0, qs[j] as usize),
                )
            &&& forall|j: int|
                0 <= j < qs.len() ==> #[trigger] trans[j] == masked_tail_block(
                    mask_n,
                    yids,
                    xptr,
                    yptr,
                    s_y,
                    p,
                    qs[j],
                    product_toks(Some(mask_m), tids, yids, xptr, s_x, true, qs[j]).flatten(),
                    index_matrix_toks(xptr, s_x, qs[j] as usize, 0),
                )
        }),
{
}

} // verus!
