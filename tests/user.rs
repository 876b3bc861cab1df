use nekotracing::transform::{ASYNC_WRITE, SYNC_WRITE};
use nekotracing::{
    join_args, nekotracing, parse_execution_time, receiver_entry, trace_record, FnDecl, FnParam,
};

#[derive(Debug, Clone, Default, PartialEq)]
pub struct User {
    id: u128,
    name: String,
    age: u8,
}

struct UserName;
struct UserAge;
struct UserId;

impl UserName {
    fn new(v: &str) -> Result<String, String> {
        if v.is_empty() {
            Err("name is empty".to_string())
        } else {
            Ok(v.to_string())
        }
    }
}

impl UserAge {
    fn new(v: u8) -> Result<u8, String> {
        if v > 150 {
            Err("age is out of range".to_string())
        } else {
            Ok(v)
        }
    }
}

impl UserId {
    fn new(v: u128) -> Result<u128, String> {
        Ok(v)
    }
}

fn check_record(log: &str, tag: &str, result: &str) {
    assert!(log.starts_with("("));
    assert!(log.contains(&format!("\u{241E}{}\u{241E}", tag)));
    assert!(log.contains("(self = User { id: 0, name: \"\", age: 0 }) -> "));
    assert!(log.contains(result));
    assert_eq!(log.matches('\u{241E}').count(), 3);
    assert!(parse_execution_time(log).is_some());
}

impl User {
    fn new() -> Self {
        Self::default()
    }

    fn name(mut self, v: String) -> Self {
        self.name = v;
        self
    }

    fn age(mut self, v: u8) -> Self {
        self.age = v;
        self
    }

    fn id(mut self, v: u128) -> Self {
        self.id = v;
        self
    }

    // The body that the attribute gives `sync_user`, with the record checked
    // in place of being appended to the log file.
    fn sync_user(self) -> Result<Self, String> {
        let __nekotracing_start = std::time::Instant::now();
        let __nekotracing_args: String = join_args(&vec![receiver_entry(&format!("{:?}", self))]);
        let __nekotracing_res: Result<Self, String> = (move || {
            Ok(self
                .name(UserName::new("sync user")?)
                .age(UserAge::new(18)?)
                .id(UserId::new(0)?))
        })();
        let __nekotracing_log: String = trace_record(
            "tests/user.rs",
            12,
            5,
            false,
            "sync_user",
            &__nekotracing_args,
            &format!("{:?}", __nekotracing_res),
            __nekotracing_start.elapsed().as_nanos(),
        );
        check_record(&__nekotracing_log, "fn sync_user", "-> Ok(User { id: 0, name: \"sync user\", age: 18 })");
        __nekotracing_res
    }

    // The body that the attribute gives `async_user`, with the record checked
    // in place of being appended to the log file.
    async fn async_user(self) -> Result<Self, String> {
        let __nekotracing_start = std::time::Instant::now();
        let __nekotracing_args: String = join_args(&vec![receiver_entry(&format!("{:?}", self))]);
        let __nekotracing_res: Result<Self, String> = async move {
            Ok(self
                .name(UserName::new("async user")?)
                .age(UserAge::new(19)?)
                .id(UserId::new(1)?))
        }
        .await;
        let __nekotracing_log: String = trace_record(
            "tests/user.rs",
            19,
            5,
            true,
            "async_user",
            &__nekotracing_args,
            &format!("{:?}", __nekotracing_res),
            __nekotracing_start.elapsed().as_nanos(),
        );
        check_record(&__nekotracing_log, "async fn async_user", "-> Ok(User { id: 1, name: \"async user\", age: 19 })");
        __nekotracing_res
    }
}

fn user_decl(is_async: bool, name: &str, block: &str) -> FnDecl {
    FnDecl {
        attrs: vec![],
        vis: String::new(),
        sig: format!(
            "{}fn {} (self) -> Result < Self , String >",
            if is_async { "async " } else { "" },
            name
        ),
        is_async,
        name: name.to_string(),
        params: vec![FnParam::Receiver],
        output: Some("Result < Self , String >".to_string()),
        block: block.to_string(),
    }
}

#[test]
fn sync_user() -> Result<(), String> {
    User::new().sync_user()?;
    Ok(())
}

#[test]
fn async_user() -> Result<(), String> {
    let rt = tokio::runtime::Builder::new_current_thread()
        .build()
        .map_err(|e| e.to_string())?;
    rt.block_on(async { User::new().async_user().await })?;
    Ok(())
}

// The text of `User::sync_user` above, as the compiler's tokens print it.
const SYNC_USER_BODY: &str = "{ Ok (self . name (UserName :: new (\"sync user\") ?) . age (UserAge :: new (18) ?) . id (UserId :: new (0) ?)) }";

#[test]
fn sync_user_expansion() {
    let out = nekotracing(&user_decl(false, "sync_user", SYNC_USER_BODY));
    let expected = [
        " fn sync_user (self) -> Result < Self , String > {",
        "let __nekotracing_start = ::std::time::Instant::now();",
        "let __nekotracing_args: ::std::string::String = ::nekotracing::join_args(&::std::vec![::nekotracing::receiver_entry(&::std::format!(\"{:?}\", self))]);",
        &format!("let __nekotracing_res: Result < Self , String > = (move || {})();", SYNC_USER_BODY),
        "let __nekotracing_log: ::std::string::String = ::nekotracing::trace_record(::std::file!(), ::std::line!(), ::std::column!(), false, ::std::stringify!(sync_user), &__nekotracing_args, &::std::format!(\"{:?}\", __nekotracing_res), __nekotracing_start.elapsed().as_nanos());",
        SYNC_WRITE,
        "__nekotracing_res }",
    ]
    .join(" ");
    assert_eq!(out, expected);
}

#[test]
fn async_user_expansion() {
    let block = "{ Ok (self) }";
    let out = nekotracing(&user_decl(true, "async_user", block));
    assert!(out.starts_with(" async fn async_user (self) -> Result < Self , String > { "));
    assert!(out.contains("let __nekotracing_res: Result < Self , String > = async move { Ok (self) }.await; let __nekotracing_log"));
    assert!(out.contains("::std::column!(), true, ::std::stringify!(async_user)"));
    assert!(out.ends_with(&format!("{} __nekotracing_res }}", ASYNC_WRITE)));
    assert!(!out.contains(SYNC_WRITE));
}
