use nekotracing::transform::{ASYNC_WRITE, SYNC_WRITE};
use nekotracing::{nekotracing, param_expr, FnDecl, FnParam};

fn decl(is_async: bool, params: Vec<FnParam>, output: Option<&str>) -> FnDecl {
    FnDecl {
        attrs: vec!["#[inline]".to_string(), "#[must_use]".to_string()],
        vis: "pub".to_string(),
        sig: "fn f < T : Debug > (x : i32 , y : T)".to_string(),
        is_async,
        name: "f".to_string(),
        params,
        output: output.map(|s| s.to_string()),
        block: "{ let _ = y ; }".to_string(),
    }
}

#[test]
fn parameter_expressions() {
    assert_eq!(
        param_expr(&FnParam::Receiver),
        "::nekotracing::receiver_entry(&::std::format!(\"{:?}\", self))"
    );
    assert_eq!(
        param_expr(&FnParam::Binding { name: "x".to_string() }),
        "::nekotracing::arg_entry(::std::stringify!(x), &::std::format!(\"{:?}\", x))"
    );
}

#[test]
fn header_and_unit_return_type() {
    let params = vec![FnParam::Binding { name: "x".to_string() }, FnParam::Binding { name: "y".to_string() }];
    let out = nekotracing(&decl(false, params, None));
    assert!(out.starts_with("#[inline] #[must_use] pub fn f < T : Debug > (x : i32 , y : T) { let __nekotracing_start"));
    assert!(out.contains("::nekotracing::join_args(&::std::vec![::nekotracing::arg_entry(::std::stringify!(x), &::std::format!(\"{:?}\", x)), ::nekotracing::arg_entry(::std::stringify!(y), &::std::format!(\"{:?}\", y))]); "));
    assert!(out.contains("let __nekotracing_res: () = (move || { let _ = y ; })(); "));
    assert!(out.ends_with(&format!("{} __nekotracing_res }}", SYNC_WRITE)));
    assert_eq!(out.matches("::nekotracing::trace_record(").count(), 1);
}

#[test]
fn declared_return_type_kept() {
    let out = nekotracing(&decl(true, vec![], Some("Result < u8 , E >")));
    assert!(out.contains("let __nekotracing_res: Result < u8 , E > = async move { let _ = y ; }.await; "));
    assert!(out.contains("&::std::vec![]); "));
    assert_eq!(out.matches(".await").count(), 5);
}

#[test]
fn write_appends_to_tracing_txt() {
    assert!(SYNC_WRITE.contains(".create(true).append(true).open(\"tracing.txt\")"));
    assert!(SYNC_WRITE.contains("::std::eprintln!(\"{}\", __nekotracing_log)"));
}

#[test]
fn generated_locals_do_not_shadow_parameters() {
    let params = vec![
        FnParam::Binding { name: "args".to_string() },
        FnParam::Binding { name: "log".to_string() },
    ];
    let out = nekotracing(&decl(false, params, Some("String")));
    assert!(!out.contains("let args"));
    assert!(!out.contains("let log"));
    assert!(!out.contains("let __res"));
    assert!(out.contains("::nekotracing::arg_entry(::std::stringify!(args), &::std::format!(\"{:?}\", args))"));
    assert!(out.contains("let __nekotracing_args: ::std::string::String"));
}

#[test]
fn patterns_are_not_read() {
    assert_eq!(
        param_expr(&FnParam::Pattern { pat: "_".to_string() }),
        "::nekotracing::arg_entry(::std::stringify!(_), \"_\")"
    );
    assert_eq!(
        param_expr(&FnParam::Pattern { pat: "(a , b)".to_string() }),
        "::nekotracing::arg_entry(::std::stringify!((a , b)), \"_\")"
    );
}

#[test]
fn async_write_flushes() {
    assert!(ASYNC_WRITE.contains("::tokio::io::AsyncWriteExt::flush(&mut file).await"));
    assert!(ASYNC_WRITE.contains("::std::eprintln!(\"{}\", __nekotracing_log)"));
}
