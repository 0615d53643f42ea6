use avx2_kernels::avx2::common::{
    fma_product, load_tvecs, load_yvecs, name_tvecs, name_yvecs, write_outcome,
};
use avx2_kernels::tokens::{Delim, Expr, Tok, TokenStream};

fn render(ts: &TokenStream) -> String {
    let mut parts: Vec<String> = Vec::new();
    for t in ts.tokens() {
        parts.push(match t {
            Tok::Ident(s) | Tok::Punct(s) | Tok::Expr(s) => s.clone(),
            Tok::Suffixed(n) => format!("{}usize", n),
            Tok::Unsuffixed(n) => format!("{}", n),
            Tok::Open(Delim::Paren) => "(".to_string(),
            Tok::Open(Delim::Bracket) => "[".to_string(),
            Tok::Open(Delim::Brace) => "{".to_string(),
            Tok::Close(Delim::Paren) => ")".to_string(),
            Tok::Close(Delim::Bracket) => "]".to_string(),
            Tok::Close(Delim::Brace) => "}".to_string(),
        });
    }
    parts.join(" ")
}

#[test]
fn common_names() {
    let r = name_tvecs(10);
    assert_eq!(r[0].as_str(), "r0");
    assert_eq!(r[9].as_str(), "r9");
    let b = name_yvecs(2);
    assert_eq!(b[1].as_str(), "b1");
}

#[test]
fn common_statements() {
    let r = name_tvecs(2);
    let b = name_yvecs(2);
    let (t, st) = (Expr::new("t"), Expr::new("st"));
    let loads: Vec<String> = load_tvecs(&r, &t, &st, 2).iter().map(render).collect();
    assert_eq!(loads[1], "let mut r1 = _mm256_loadu_ps ( t . add ( 1usize * st ) ) ;");
    let yl: Vec<String> = load_yvecs(&b, &Expr::new("y"), &Expr::new("sy"), 2).iter().map(render).collect();
    assert_eq!(yl[1], "let b1 = _mm256_loadu_ps ( y + 1usize * sy ) ;");
    let saves: Vec<String> = write_outcome(&r, &t, &st, 2).iter().map(render).collect();
    assert_eq!(saves[0], "_mm256_storeu_ps ( t . add ( 0usize * st ) , r0 ) ;");
    let prods: Vec<String> =
        fma_product(&r, &b, &Expr::new("x"), &Expr::new("sx"), 2, 2).iter().map(render).collect();
    assert_eq!(prods.len(), 4);
    assert_eq!(prods[3], "fma_accum ! ( r1 , x . add ( 1usize * sx + 1usize ) , b1 ) ;");
}
