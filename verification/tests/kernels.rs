use avx2_kernels::avx2::kernel::triangle::triangle_args_from_split;
use avx2_kernels::avx2::kernel::{
    alligned, kernel_args_from_split, matmul, parse_kernel_args, triangle, ArgsError, KernelArgs,
};
use avx2_kernels::avx2::{
    pack_args_from_split, pack_simd_line_alligned, pack_simd_line_from_split,
    pack_simd_line_unalligned,
};
use avx2_kernels::tokens::{Delim, Tok, TokenStream};

fn render(ts: &TokenStream) -> String {
    let mut parts: Vec<String> = Vec::new();
    for t in ts.tokens() {
        parts.push(match t {
            Tok::Ident(s) | Tok::Punct(s) | Tok::Expr(s) => s.clone(),
            Tok::Suffixed(n) => format!("{}usize", n),
            Tok::Unsuffixed(n) => format!("{}", n),
            Tok::Open(Delim::Paren) => "(".to_string(),
            Tok::Open(Delim::Bracket) => "[".to_string(),
            Tok::Open(Delim::Brace) => "{".to_string(),
            Tok::Close(Delim::Paren) => ")".to_string(),
            Tok::Close(Delim::Bracket) => "]".to_string(),
            Tok::Close(Delim::Brace) => "}".to_string(),
        });
    }
    parts.join(" ")
}

const ARGS: &str = "xp, yp, tp, m, p, n, sx, sy, st";

#[test]
fn kernel_args_are_split_by_syn() {
    let a = parse_kernel_args("a,b,c,d,e,f,g,h,i,j").unwrap();
    assert_eq!(a.xptr.as_str(), "a");
    assert_eq!(a.m.as_str(), "d");
    assert_eq!(a.s_t.as_str(), "i");
    let list = vec!["u".to_string(); 9];
    assert!(KernelArgs::from_exprs(&list).is_ok());
    match KernelArgs::from_exprs(&list[..4].to_vec()) {
        Err(i) => assert_eq!(i, 4),
        Ok(_) => panic!("four expressions are too few"),
    }
}

#[test]
fn kernel_args_errors() {
    match parse_kernel_args("a, b") {
        Err(ArgsError::Missing(m)) => assert_eq!(m, "variable not found"),
        other => panic!("unexpected {:?}", other.map(|_| ())),
    }
    match parse_kernel_args("a b") {
        Err(ArgsError::Syntax(_)) => {}
        other => panic!("unexpected {:?}", other.map(|_| ())),
    }
}

#[test]
fn matmul_aligned_smallest_kernel() {
    let ts = matmul::mult_alligned(ARGS, 1, 1).unwrap();
    assert_eq!(
        render(&ts),
        "unsafe { let mut m0 = _mm256_loadu_ps ( tp ) ; for _ in 0 .. p { let mut b0 = _mm256_loadu_ps ( yp ) ; m0 = fma_accum ( m0 , xp , b0 ) ; yp = yp . add ( 1usize ) ; yp = yp . add ( sy ) ; } _mm256_storeu_ps ( tp , m0 ) ; }"
    );
}

#[test]
fn matmul_aligned_with_tail() {
    let text = render(&matmul::mult_alligned(ARGS, 8, 4).unwrap());
    assert!(text.starts_with("unsafe { let mut m0 = _mm256_loadu_ps ( tp ) ;"));
    assert_eq!(text.matches("fma_accum").count(), 8 * 4 + 8 * 2 + 8 * 1);
    assert!(text.contains("if 2usize & p != 0 {"));
    assert!(text.contains("if 1usize & p != 0 {"));
    assert_eq!(text.matches("_mm256_storeu_ps").count(), 8);
}

#[test]
fn matmul_masked_kernels() {
    let un = render(&matmul::mult_unalligned(ARGS, 2, 2).unwrap());
    assert!(un.starts_with("unsafe { let mut mask_m = MASK [ m ] ; let mut mask_m = MASK [ n ] ;"));
    assert!(un.contains("for _ in 0 .. p / 2usize {"));
    assert_eq!(un.matches("mask_store_ctrl").count(), 2);
    let lo = render(&matmul::lmult_lower_tri(ARGS, 2, 2).unwrap());
    assert!(lo.contains("for _ in threshold .. p / 2usize {"));
    assert_eq!(lo.matches(" fma_accum ").count(), 3);
    let up = render(&matmul::lmult_upper_tri(ARGS, 2, 2).unwrap());
    assert!(up.contains("xp = xp . add ( 2usize ) ;"));
    assert_eq!(up.matches(" fma_accum ").count(), 3);
    let rlo = render(&matmul::rmult_lower_tri(ARGS, 2, 2).unwrap());
    assert!(rlo.contains("threshold let mut mask_t = [ 0 ; m ] ; for i in 0 .. threshold {"));
    let rup = render(&matmul::rmult_upper_tri(ARGS, 2, 2).unwrap());
    assert!(rup.contains("let mut mask_t = mask_n ; for j in ( 0 .. threshold ) . rev ( ) {"));
}

#[test]
fn matmul_reports_missing_arguments() {
    match matmul::mult_alligned("a, b, c", 8, 4) {
        Err(ArgsError::Missing(m)) => assert_eq!(m, "variable not found"),
        other => panic!("unexpected {:?}", other.map(|_| ())),
    }
}

#[test]
fn aligned_panel_reorders_statements() {
    let text = render(&alligned::mult_alligned(ARGS).unwrap());
    assert!(text.starts_with("unsafe { let mut r0 = _mm256_loadu_ps ( tp ) ; let mut r4 = _mm256_loadu_ps ( tp . add ( st * 4usize ) ) ; let mut r1"));
    assert_eq!(text.matches("fma_accum !").count(), 16);
    assert!(text.contains("for _ in 0 .. p { let mut b0 = _mm256_loadu_ps ( yp ) ; let mut b1 = _mm256_loadu_ps ( yp . add ( sy ) ) ; fma_accum ! ( r0 , xp . add ( 0usize * sx + 0usize ) , b0 ) ; fma_accum ! ( r6 ,"));
    assert!(text.ends_with("_mm256_storeu_ps ( tp . add ( 7usize * st ) , r7 ) ; }"));
}

#[test]
fn row_kernel_and_its_errors() {
    let text = render(&triangle::mult_unalligned(ARGS).unwrap());
    assert!(text.starts_with("unsafe { let mut row_0 = mask_load ( tp . add ( 0usize * st ) ) ;"));
    assert!(text.contains("for _ in 0 .. p { let b = _mm256_loadu_ps ( yptr ) ; fma_accum ! ( row_0 , xp . add ( 0usize * sx ) , b ) ;"));
    assert_eq!(text.matches("_mm256_storeu_ps").count(), 8);
    match triangle::mult_unalligned("a, b, c") {
        Err(ArgsError::Missing(m)) => assert_eq!(m, "m not viable"),
        other => panic!("unexpected {:?}", other.map(|_| ())),
    }
    match triangle::mult_unalligned("") {
        Err(ArgsError::Missing(m)) => assert_eq!(m, "xptr not viable"),
        other => panic!("unexpected {:?}", other.map(|_| ())),
    }
}

#[test]
fn pack_lines() {
    assert_eq!(
        render(&pack_simd_line_alligned("b, d").unwrap()),
        "_mm256_storeu_ps ( b . add ( 0usize ) , _mm256_loadu_ps ( d . add ( 0usize ) ) ) ;"
    );
    assert_eq!(
        render(&pack_simd_line_unalligned("b, d, s").unwrap()),
        "_mm256_storeu_ps ( b . add ( 0usize ) , _mm256_maskload_ps ( d . add ( 0usize ) , _mm256_loadu_si256 ( MASK [ s . saturating_sub ( 0usize ) . min ( 8 ) ] . as_ptr ( ) as * const __m256i ) ) ) ;"
    );
    match pack_simd_line_alligned("b") {
        Err(ArgsError::Missing(m)) => assert_eq!(m, "failed to parse dptr"),
        other => panic!("unexpected {:?}", other.map(|_| ())),
    }
    match pack_simd_line_unalligned("b, d") {
        Err(ArgsError::Missing(m)) => assert_eq!(m, "failed to parse source"),
        other => panic!("unexpected {:?}", other.map(|_| ())),
    }
}

fn strings(v: &[&str]) -> Vec<String> {
    v.iter().map(|s| s.to_string()).collect()
}

#[test]
fn arguments_from_a_split_input() {
    let nine = strings(&["a", "b", "c", "d", "e", "f", "g", "h", "i"]);
    let a = kernel_args_from_split(Ok(nine.clone())).unwrap();
    assert_eq!(a.yptr.as_str(), "b");
    assert_eq!(a.s_y.as_str(), "h");
    match kernel_args_from_split(Err("bad".to_string())) {
        Err(ArgsError::Syntax(m)) => assert_eq!(m, "bad"),
        other => panic!("unexpected {:?}", other.map(|_| ())),
    }
    match kernel_args_from_split(Ok(strings(&["a"]))) {
        Err(ArgsError::Missing(m)) => assert_eq!(m, "variable not found"),
        other => panic!("unexpected {:?}", other.map(|_| ())),
    }
    match triangle_args_from_split(Ok(strings(&["a", "b", "c", "d", "e", "f", "g"]))) {
        Err(ArgsError::Missing(m)) => assert_eq!(m, "s_y not viable"),
        other => panic!("unexpected {:?}", other.map(|_| ())),
    }
    assert!(triangle_args_from_split(Ok(nine)).is_ok());
    let pa = pack_args_from_split(Ok(strings(&["b", "d", "s"])), true).unwrap();
    assert_eq!(pa.source.unwrap().as_str(), "s");
    match pack_args_from_split(Ok(strings(&[])), false) {
        Err(ArgsError::Missing(m)) => assert_eq!(m, "failed to parse bptr"),
        other => panic!("unexpected {:?}", other.map(|_| ())),
    }
}

#[test]
fn aligned_panel_masked_kernel() {
    let text = render(&alligned::mult_unalligned(ARGS).unwrap());
    assert!(text.starts_with("unsafe { let mut mask_m = MASK [ m ] ; let mut mask_n = MASK [ n ] ; let mut r0 = mask_load ( mask_m , tp ) ; let mut r4 = mask_load ( mask_m , tp . add ( st * 4usize ) ) ;"));
    assert!(text.contains("for _ in 0 .. p { let mut b0 = mask_load ( mask_n , yp ) ; let mut b1 = mask_load ( mask_n , yp . add ( sy ) ) ; r0 = cfma_accum ( mask_m [ 0usize ] , r0 , xp , b0 ) ; r6 = cfma_accum"));
    assert_eq!(text.matches("cfma_accum").count(), 16);
    assert!(text.ends_with("mask_store_ctrl ( mask_m [ 7usize ] , mask_n , tp . add ( st * 7usize ) , r7 ) ; }"));
    match alligned::mult_unalligned("a") {
        Err(ArgsError::Missing(m)) => assert_eq!(m, "variable not found"),
        other => panic!("unexpected {:?}", other.map(|_| ())),
    }
}

fn nine_names() -> Vec<String> {
    strings(&["xp", "yp", "tp", "m", "p", "n", "sx", "sy", "st"])
}

fn is_balanced(ts: &TokenStream) -> bool {
    let mut open: Vec<Delim> = Vec::new();
    for t in ts.tokens() {
        match t {
            Tok::Open(d) => open.push(*d),
            Tok::Close(d) => match open.pop() {
                Some(o) if o == *d => {}
                _ => return false,
            },
            _ => {}
        }
    }
    open.is_empty()
}

#[test]
fn kernels_from_a_split_input() {
    let from_split = matmul::rmult_lower_tri_from_split(Ok(nine_names()), 2, 2).unwrap();
    let from_text = matmul::rmult_lower_tri(ARGS, 2, 2).unwrap();
    assert_eq!(render(&from_split), render(&from_text));
    match matmul::rmult_lower_tri_from_split(Ok(strings(&["x", "y", "t"])), 2, 2) {
        Err(ArgsError::Missing(m)) => assert_eq!(m, "variable not found"),
        other => panic!("unexpected {:?}", other.map(|_| ())),
    }
    match matmul::mult_alligned_from_split(Err("expected `,`".to_string()), 1, 1) {
        Err(ArgsError::Syntax(m)) => assert_eq!(m, "expected `,`"),
        other => panic!("unexpected {:?}", other.map(|_| ())),
    }
    assert_eq!(
        render(&matmul::mult_alligned_from_split(Ok(nine_names()), 1, 1).unwrap()),
        "unsafe { let mut m0 = _mm256_loadu_ps ( tp ) ; for _ in 0 .. p { let mut b0 = _mm256_loadu_ps ( yp ) ; m0 = fma_accum ( m0 , xp , b0 ) ; yp = yp . add ( 1usize ) ; yp = yp . add ( sy ) ; } _mm256_storeu_ps ( tp , m0 ) ; }"
    );
    for (a, b) in [
        (matmul::mult_unalligned_from_split(Ok(nine_names()), 2, 2), matmul::mult_unalligned(ARGS, 2, 2)),
        (matmul::lmult_lower_tri_from_split(Ok(nine_names()), 2, 2), matmul::lmult_lower_tri(ARGS, 2, 2)),
        (matmul::lmult_upper_tri_from_split(Ok(nine_names()), 2, 2), matmul::lmult_upper_tri(ARGS, 2, 2)),
        (matmul::rmult_upper_tri_from_split(Ok(nine_names()), 2, 2), matmul::rmult_upper_tri(ARGS, 2, 2)),
    ] {
        assert_eq!(render(&a.unwrap()), render(&b.unwrap()));
    }
}

#[test]
fn panels_from_a_split_input() {
    assert_eq!(
        render(&alligned::mult_alligned_from_split(Ok(nine_names())).unwrap()),
        render(&alligned::mult_alligned(ARGS).unwrap())
    );
    assert_eq!(
        render(&alligned::mult_unalligned_from_split(Ok(nine_names())).unwrap()),
        render(&alligned::mult_unalligned(ARGS).unwrap())
    );
    match alligned::mult_alligned_from_split(Ok(strings(&["a", "b"]))) {
        Err(ArgsError::Missing(m)) => assert_eq!(m, "variable not found"),
        other => panic!("unexpected {:?}", other.map(|_| ())),
    }
    assert_eq!(
        render(&triangle::mult_unalligned_from_split(Ok(nine_names())).unwrap()),
        render(&triangle::mult_unalligned(ARGS).unwrap())
    );
    match triangle::mult_unalligned_from_split(Ok(strings(&["a", "b", "c"]))) {
        Err(ArgsError::Missing(m)) => assert_eq!(m, "m not viable"),
        other => panic!("unexpected {:?}", other.map(|_| ())),
    }
}

#[test]
fn packs_from_a_split_input() {
    assert_eq!(
        render(&pack_simd_line_from_split(Ok(strings(&["b", "d"])), false).unwrap()),
        "_mm256_storeu_ps ( b . add ( 0usize ) , _mm256_loadu_ps ( d . add ( 0usize ) ) ) ;"
    );
    assert_eq!(
        render(&pack_simd_line_from_split(Ok(strings(&["b", "d", "s"])), true).unwrap()),
        render(&pack_simd_line_unalligned("b, d, s").unwrap())
    );
    match pack_simd_line_from_split(Ok(strings(&["b", "d"])), true) {
        Err(ArgsError::Missing(m)) => assert_eq!(m, "failed to parse source"),
        other => panic!("unexpected {:?}", other.map(|_| ())),
    }
}

#[test]
fn emitted_groups_are_balanced() {
    assert!(is_balanced(&matmul::rmult_lower_tri(ARGS, 8, 4).unwrap()));
    assert!(is_balanced(&matmul::rmult_upper_tri(ARGS, 3, 3).unwrap()));
    assert!(is_balanced(&alligned::mult_alligned(ARGS).unwrap()));
    assert!(is_balanced(&triangle::mult_unalligned(ARGS).unwrap()));
    assert!(is_balanced(&pack_simd_line_unalligned("b, d, s").unwrap()));
}
