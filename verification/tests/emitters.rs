use avx2_kernels::avx2::emitters::{
    fma, fma_product, fma_tproduct, handle_tail, increment, index_matrix, init_var, lhandle_lowtri,
    lhandle_uptri, load_vecs, lvec, mfma_product, mfma_tproduct, mhandle_tail, mload_vecs, mlvec,
    mwrite_outcome, name, name_range, rhandle_lowtrie, rhandle_uptri, thandle_tail, tmhandle_tail,
    unalligned_lhandle_lowtri, write_outcome,
};
use avx2_kernels::tokens::{Delim, Expr, Ident, Tok, TokenStream};

fn render(ts: &TokenStream) -> String {
    let mut parts: Vec<String> = Vec::new();
    for t in ts.tokens() {
        parts.push(match t {
            Tok::Ident(s) | Tok::Punct(s) | Tok::Expr(s) => s.clone(),
            Tok::Suffixed(n) => format!("{}usize", n),
            Tok::Unsuffixed(n) => format!("{}", n),
            Tok::Open(Delim::Paren) => "(".to_string(),
            Tok::Open(Delim::Bracket) => "[".to_string(),
            Tok::Open(Delim::Brace) => "{".to_string(),
            Tok::Close(Delim::Paren) => ")".to_string(),
            Tok::Close(Delim::Bracket) => "]".to_string(),
            Tok::Close(Delim::Brace) => "}".to_string(),
        });
    }
    parts.join(" ")
}

fn render_all(v: &[TokenStream]) -> Vec<String> {
    v.iter().map(render).collect()
}

fn e(s: &str) -> Expr {
    Expr::new(s)
}

fn ids(prefix: &str, n: usize) -> Vec<Ident> {
    name_range(prefix, n)
}

#[test]
fn index_matrix_picks_shortest_form() {
    let (p, s) = (e("ptr"), e("st"));
    assert_eq!(render(&index_matrix(&p, &s, 0, 0)), "ptr");
    assert_eq!(render(&index_matrix(&p, &s, 0, 3)), "ptr . add ( 3usize )");
    assert_eq!(render(&index_matrix(&p, &s, 1, 0)), "ptr . add ( st )");
    assert_eq!(render(&index_matrix(&p, &s, 2, 0)), "ptr . add ( st * 2usize )");
    assert_eq!(render(&index_matrix(&p, &s, 1, 4)), "ptr . add ( st + 4usize )");
    assert_eq!(render(&index_matrix(&p, &s, 3, 5)), "ptr . add ( st * 3usize + 5usize )");
}

#[test]
fn name_range_numbers_identifiers() {
    let v = ids("m", 12);
    let names: Vec<&str> = v.iter().map(|i| i.as_str()).collect();
    assert_eq!(names[0], "m0");
    assert_eq!(names[3], "m3");
    assert_eq!(names[11], "m11");
    assert_eq!(v.len(), 12);
    assert!(ids("b", 0).is_empty());
    assert_eq!(name("mask_m").as_str(), "mask_m");
}

#[test]
fn single_statements() {
    let (p, s) = (e("x"), e("sx"));
    assert_eq!(render(&increment(&p, &s, 0, 2)), "x = x . add ( 2usize ) ;");
    let mut val = TokenStream::new();
    val.push_unsuffixed(7);
    assert_eq!(render(&init_var(&name("v"), &val)), "let mut v = 7 ;");
    assert_eq!(
        render(&lvec(&name("r"), &p, &s, 2, 9)),
        "let mut r = _mm256_loadu_ps ( x . add ( sx * 2usize ) ) ;"
    );
    assert_eq!(
        render(&mlvec(&name("mk"), &name("r"), &p, &s, 1, 1)),
        "let mut r = mask_load ( mk , x . add ( sx + 1usize ) ) ;"
    );
    assert_eq!(
        render(&fma(&name("r"), &e("b0"), &p, &s, 0, 1)),
        "fma_accum ! ( r , x . add ( 1usize ) , b0 ) ;"
    );
}

#[test]
fn vector_loads_and_stores() {
    let (p, s) = (e("t"), e("st"));
    let r = ids("m", 3);
    assert_eq!(
        render_all(&load_vecs(&r, &p, &s, 3)),
        vec![
            "let mut m0 = _mm256_loadu_ps ( t ) ;",
            "let mut m1 = _mm256_loadu_ps ( t . add ( st ) ) ;",
            "let mut m2 = _mm256_loadu_ps ( t . add ( st * 2usize ) ) ;",
        ]
    );
    assert_eq!(
        render_all(&mload_vecs(&name("mask_m"), &r, &p, &s, 3))[1],
        "let mut m1 = mask_load ( mask_m , t . add ( st ) ) ;"
    );
    assert_eq!(
        render_all(&write_outcome(&r, &p, &s, 3))[2],
        "_mm256_storeu_ps ( t . add ( st * 2usize ) , m2 ) ;"
    );
    assert_eq!(
        render_all(&mwrite_outcome(&name("mask_m"), &name("mask_n"), &r, &p, &s, 3))[0],
        "mask_store_ctrl ( mask_m [ 0usize ] , mask_n , t , m0 ) ;"
    );
}

#[test]
fn products_cover_every_pair() {
    let (x, s) = (e("x"), e("sx"));
    let t = ids("m", 3);
    let b = ids("b", 2);
    let plain = render_all(&fma_product(&t, &b, &x, &s, 3, 2));
    assert_eq!(plain.len(), 6);
    assert_eq!(plain[0], "m0 = fma_accum ( m0 , x , b0 ) ;");
    assert_eq!(plain[4], "m1 = fma_accum ( m1 , x . add ( sx + 1usize ) , b1 ) ;");
    let trans = render_all(&fma_tproduct(&t, &b, &x, &s, 3, 2));
    assert_eq!(trans[4], "m1 = fma_accum ( m1 , x . add ( sx + 1usize ) , b1 ) ;");
    assert_eq!(trans[2], "m2 = fma_accum ( m2 , x . add ( 2usize ) , b0 ) ;");
    assert_eq!(plain[2], "m2 = fma_accum ( m2 , x . add ( sx * 2usize ) , b0 ) ;");
    let masked = render_all(&mfma_product(&name("mk"), &t, &b, &x, &s, 3, 2));
    assert_eq!(masked[5], "m2 = cfma_accum ( mk [ 2usize ] , m2 , x . add ( sx * 2usize + 1usize ) , b1 ) ;");
    let mtrans = render_all(&mfma_tproduct(&name("mk"), &t, &b, &x, &s, 3, 2));
    assert_eq!(mtrans[5], "m2 = cfma_accum ( mk [ 2usize ] , m2 , x . add ( sx + 2usize ) , b1 ) ;");
}

fn guards(tail: &[TokenStream]) -> Vec<usize> {
    tail.iter()
        .map(|block| match block.tokens()[1] {
            Tok::Suffixed(q) => q,
            _ => panic!("a tail block starts with its guard"),
        })
        .collect()
}

#[test]
fn tail_blocks_halve_from_largest_power_below_k() {
    let (x, y, sx, sy, p) = (e("x"), e("y"), e("sx"), e("sy"), e("p"));
    let t = ids("m", 2);
    let b = ids("b", 8);
    assert_eq!(guards(&handle_tail(&t, &b, &x, &y, &sx, &sy, &p, 1)), Vec::<usize>::new());
    assert_eq!(guards(&handle_tail(&t, &b, &x, &y, &sx, &sy, &p, 2)), vec![1]);
    assert_eq!(guards(&handle_tail(&t, &b, &x, &y, &sx, &sy, &p, 4)), vec![2, 1]);
    assert_eq!(guards(&handle_tail(&t, &b, &x, &y, &sx, &sy, &p, 5)), vec![4, 2, 1]);
    assert_eq!(guards(&handle_tail(&t, &b, &x, &y, &sx, &sy, &p, 8)), vec![4, 2, 1]);
}

#[test]
fn tail_covers_every_remainder() {
    let (x, y, sx, sy, p) = (e("x"), e("y"), e("sx"), e("sy"), e("p"));
    let t = ids("m", 1);
    let b = ids("b", 64);
    for k in 1..=64usize {
        let qs = guards(&handle_tail(&t, &b, &x, &y, &sx, &sy, &p, k));
        for r in 0..k {
            let covered: usize = qs.iter().filter(|&&q| q & r != 0).sum();
            assert_eq!(covered, r, "k = {}, r = {}", k, r);
        }
    }
}

#[test]
fn tail_block_text() {
    let (x, y, sx, sy, p) = (e("x"), e("y"), e("sx"), e("sy"), e("p"));
    let t = ids("m", 1);
    let b = ids("b", 2);
    let tail = render_all(&handle_tail(&t, &b, &x, &y, &sx, &sy, &p, 2));
    assert_eq!(
        tail,
        vec!["if 1usize & p != 0 { let b0 = _mm256_loadu_ps ( y ) ; m0 = fma_accum ( m0 , x , b0 ) ; xptr = x . add ( 1usize ) ; yptr = y . add ( sy ) ; }"]
    );
    let ttail = render_all(&thandle_tail(&t, &b, &x, &y, &sx, &sy, &p, 2));
    assert_eq!(
        ttail,
        vec!["if 1usize & p != 0 { let b0 = _mm256_loadu_ps ( y ) ; m0 = fma_accum ( m0 , x , b0 ) ; xptr = x . add ( sx ) ; yptr = y . add ( sy ) ; }"]
    );
    let (mm, mn) = (name("mask_m"), name("mask_n"));
    let mtail = render_all(&mhandle_tail(&mm, &mn, &t, &b, &x, &y, &sx, &sy, &p, 2));
    assert_eq!(
        mtail,
        vec!["if 1usize & p != 0 { let b0 = mask_load ( mask_n , y ) ; y = y . add ( sy ) ; m0 = cfma_accum ( mask_m [ 0usize ] , m0 , x , b0 ) ; x = x . add ( 1usize ) ; }"]
    );
    let tmtail = render_all(&tmhandle_tail(&mm, &mn, &t, &b, &x, &y, &sx, &sy, &p, 2));
    assert_eq!(
        tmtail,
        vec!["if 1usize & p != 0 { let b0 = mask_load ( mask_n , y ) ; y = y . add ( sy ) ; m0 = cfma_accum ( mask_m [ 0usize ] , m0 , x , b0 ) ; x = x . add ( sx ) ; }"]
    );
}

#[test]
fn lower_triangle_blocks_shrink() {
    let (x, y, sx, sy) = (e("x"), e("y"), e("sx"), e("sy"));
    let t = ids("m", 3);
    let blocks = render_all(&lhandle_lowtri(&name("mask_n"), &t, &x, &y, &sx, &sy, &name("b0"), 3));
    assert_eq!(blocks.len(), 3);
    assert_eq!(blocks[0].matches("fma_accum").count(), 3);
    assert_eq!(blocks[1].matches("fma_accum").count(), 2);
    assert_eq!(
        blocks[2],
        "{ let b0 = mask_load ( mask_n , y ) ; m2 = fma_accum ( m2 , x . add ( sx * 2usize ) , b0 ) ; }"
    );
    assert!(blocks[0].ends_with("x = x . add ( 1usize ) ; y = y . add ( sy ) ; }"));
}

#[test]
fn upper_triangle_blocks_grow() {
    let (x, y, sx, sy) = (e("x"), e("y"), e("sx"), e("sy"));
    let t = ids("m", 3);
    let blocks = render_all(&lhandle_uptri(&name("mask_n"), &t, &x, &y, &sx, &sy, &name("b0"), 3));
    assert_eq!(blocks.len(), 3);
    assert_eq!(
        blocks[0],
        "{ let b0 = mask_load ( mask_n , y ) ; m0 = fma_accum ( m0 , x , b0 ) ; x = x . add ( 1usize ) ; y = y . add ( sy ) ; }"
    );
    assert_eq!(blocks[2].matches("fma_accum").count(), 3);
}

#[test]
fn triangular_loops() {
    let (x, y, sx, sy) = (e("x"), e("y"), e("sx"), e("sy"));
    let t = ids("m", 1);
    let (mt, mn, b) = (name("mask_t"), name("mask_n"), name("b0"));
    assert_eq!(
        render(&unalligned_lhandle_lowtri(&name("thr"), &mt, &mn, &t, &x, &y, &sx, &sy, &b, 1)),
        "for k in 0 .. thr { let b0 = mask_load ( mask_n , y ) ; y = y . add ( sy ) ; m0 = cfma_accum ( mask_t [ 0usize ] , m0 , x , b0 ) ; mask_t [ k ] = 0 ; x = x . add ( 1usize ) ; }"
    );
    assert_eq!(
        render(&rhandle_lowtrie(&mt, &mn, &t, &x, &y, &sx, &sy, &name("h"), &b)),
        "for i in 0 .. h { mask_t [ i ] = mask_n [ i ] ; let b0 = mask_load ( mask_t , y ) ; m0 = cfma_accum ( mask_t [ 0usize ] , m0 , x , b0 ) ; y = y . add ( sy ) ; x = x . add ( 1usize ) ; }"
    );
    assert_eq!(
        render(&rhandle_uptri(&mn, &mt, &t, &x, &y, &sx, &sy, &name("h"), &b)),
        "for j in ( 0 .. h ) . rev ( ) { let b0 = mask_load ( mask_t , y ) ; m0 = cfma_accum ( mask_t [ 0usize ] , m0 , x , b0 ) ; y = y . add ( sy ) ; x = x . add ( 1usize ) ; mask_t [ j ] = 0 ; }"
    );
}

#[test]
fn masked_tails_differ_only_in_x() {
    let (x, y, sx, sy, p) = (e("x"), e("y"), e("sx"), e("sy"), e("p"));
    let t = ids("m", 3);
    let b = ids("b", 8);
    let (mm, mn) = (name("mask_m"), name("mask_n"));
    let plain = render_all(&mhandle_tail(&mm, &mn, &t, &b, &x, &y, &sx, &sy, &p, 8));
    let trans = render_all(&tmhandle_tail(&mm, &mn, &t, &b, &x, &y, &sx, &sy, &p, 8));
    assert_eq!(plain.len(), trans.len());
    for (a, c) in plain.iter().zip(trans.iter()) {
        let head_a = &a[..a.find(" m0 = ").unwrap()];
        let head_c = &c[..c.find(" m0 = ").unwrap()];
        assert_eq!(head_a, head_c);
    }
    assert!(plain[0].ends_with("x = x . add ( 4usize ) ; }"));
    assert!(trans[0].ends_with("x = x . add ( sx * 4usize ) ; }"));
}
