//! The instrumenting rewrite of a function declaration.
//!
//! A declaration is held as the source text of its parts. The rewrite keeps
//! the attributes, the visibility and the signature as they are, and gives
//! the function a new body that
//! 1. notes the start instant,
//! 2. describes the arguments (`name = {:?}`, joined by `", "`; a parameter
//!    that binds no single name shows as `pattern = _`),
//! 3. runs the original body to completion as one value of the declared
//!    return type: an immediately called `move` closure, or an awaited
//!    `async move` block,
//! 4. builds the record with the elapsed time,
//! 5. appends it to `tracing.txt` (blocking, or through tokio for an `async`
//!    function), reporting a failure on standard error,
//! 6. returns the value of step 3.
//!
//! Every local the new body introduces starts with `__nekotracing_`, so none
//! of them hides a parameter from the original body.
use vstd::prelude::*;

use crate::record::{join_args, joined, views};
use crate::text::push_text;

verus! {

/// One parameter of a declaration.
pub enum FnParam {
    /// `self`, `&self`, `&mut self` or `self: T`.
    Receiver,
    /// A parameter that binds one identifier (`x`, `mut x`, `ref x`,
    /// `x @ ..`), by that identifier.
    Binding { name: String },
    /// Any other pattern (`_`, a tuple or struct pattern), by its text; its
    /// value is not read.
    Pattern { pat: String },
}

/// A function declaration, each part as source text.
pub struct FnDecl {
    /// Each outer attribute, e.g. `#[inline]`.
    pub attrs: Vec<String>,
    /// The visibility, empty when private.
    pub vis: String,
    /// The whole signature, from the qualifiers to the return type and `where` clause.
    pub sig: String,
    /// Whether the signature carries `async`.
    pub is_async: bool,
    /// The function's identifier.
    pub name: String,
    /// The parameters, in order.
    pub params: Vec<FnParam>,
    /// The return type, when the signature names one.
    pub output: Option<String>,
    /// The body, braces included.
    pub block: String,
}

/// The start of the new body: the start instant.
pub const START_STATEMENT: &'static str = "let __nekotracing_start = ::std::time::Instant::now(); ";

/// Appends the record with blocking file I/O.
pub const SYNC_WRITE: &'static str = "match ::std::fs::OpenOptions::new().create(true).append(true).open(\"tracing.txt\") { ::std::result::Result::Ok(mut file) => { if let ::std::result::Result::Err(e) = ::std::io::Write::write_all(&mut file, ::std::format!(\"{}\\n\", __nekotracing_log).as_bytes()) { ::std::eprintln!(\"Error writing log to file 'tracing.txt': {}\", e); ::std::eprintln!(\"{}\", __nekotracing_log); } } ::std::result::Result::Err(e) => { ::std::eprintln!(\"Error opening/creating log file 'tracing.txt': {}\", e); ::std::eprintln!(\"{}\", __nekotracing_log); } }";

/// Appends the record through tokio, suspending instead of blocking; the
/// flush waits for the write to finish, so a failed write is reported too.
pub const ASYNC_WRITE: &'static str = "match ::tokio::fs::OpenOptions::new().create(true).append(true).open(\"tracing.txt\").await { ::std::result::Result::Ok(mut file) => { let __nekotracing_written: ::std::io::Result<()> = async { ::tokio::io::AsyncWriteExt::write_all(&mut file, ::std::format!(\"{}\\n\", __nekotracing_log).as_bytes()).await?; ::tokio::io::AsyncWriteExt::flush(&mut file).await }.await; if let ::std::result::Result::Err(e) = __nekotracing_written { ::std::eprintln!(\"Error writing log to file 'tracing.txt': {}\", e); ::std::eprintln!(\"{}\", __nekotracing_log); } } ::std::result::Result::Err(e) => { ::std::eprintln!(\"Error opening/creating log file 'tracing.txt': {}\", e); ::std::eprintln!(\"{}\", __nekotracing_log); } }";

/// The expression that describes one parameter in the record.
pub open spec fn param_expr_text(p: FnParam) -> Seq<char> {
    match p {
        FnParam::Receiver => "::nekotracing::receiver_entry(&::std::format!(\"{:?}\", self))"@,
        FnParam::Binding { name } => "::nekotracing::arg_entry(::std::stringify!("@ + name@
            + "), &::std::format!(\"{:?}\", "@ + name@ + "))"@,
        FnParam::Pattern { pat } => "::nekotracing::arg_entry(::std::stringify!("@ + pat@
            + "), \"_\")"@,
    }
}

/// The statement that computes the argument description.
pub open spec fn args_statement_text(params: Seq<FnParam>) -> Seq<char> {
    "let __nekotracing_args: ::std::string::String = ::nekotracing::join_args(&::std::vec!["@ + joined(
        params.map_values(|p: FnParam| param_expr_text(p)),
    ) + "]); "@
}

/// The declared return type, `()` when the signature names none.
pub open spec fn return_type_text(output: Option<String>) -> Seq<char> {
    match output {
        Some(t) => t@,
        None => "()"@,
    }
}

/// The original body as one expression that runs it to completion.
pub open spec fn wrapped_body_text(is_async: bool, block: Seq<char>) -> Seq<char> {
    if is_async {
        "async move "@ + block + ".await"@
    } else {
        "(move || "@ + block + ")()"@
    }
}

/// The statement that binds the body's value, typed as declared.
pub open spec fn result_statement_text(d: FnDecl) -> Seq<char> {
    "let __nekotracing_res: "@ + return_type_text(d.output) + " = "@ + wrapped_body_text(d.is_async, d.block@)
        + "; "@
}

/// The statement that builds the record once the value is there.
pub open spec fn log_statement_text(is_async: bool, name: Seq<char>) -> Seq<char> {
    "let __nekotracing_log: ::std::string::String = ::nekotracing::trace_record(::std::file!(), ::std::line!(), ::std::column!(), "@
        + (if is_async {
        "true"@
    } else {
        "false"@
    }) + ", ::std::stringify!("@ + name
        + "), &__nekotracing_args, &::std::format!(\"{:?}\", __nekotracing_res), __nekotracing_start.elapsed().as_nanos()); "@
}

/// The statement that appends the record to the log file.
pub open spec fn write_statement_text(is_async: bool) -> Seq<char> {
    if is_async {
        ASYNC_WRITE@
    } else {
        SYNC_WRITE@
    }
}

/// Attributes, visibility and signature, unchanged.
pub open spec fn header_text(d: FnDecl) -> Seq<char> {
    attrs_text(views(d.attrs@)) + d.vis@ + " "@ + d.sig@
}

/// Each attribute followed by a space.
pub open spec fn attrs_text(attrs: Seq<Seq<char>>) -> Seq<char>
    decreases attrs.len(),
{
    if attrs.len() == 0 {
        Seq::empty()
    } else {
        attrs_text(attrs.drop_last()) + attrs.last() + " "@
    }
}

/// The new body.
pub open spec fn instrumented_body_text(d: FnDecl) -> Seq<char> {
    " { "@ + START_STATEMENT@ + args_statement_text(d.params@) + result_statement_text(d)
        + log_statement_text(d.is_async, d.name@) + write_statement_text(d.is_async) + " __nekotracing_res }"@
}

/// The instrumented declaration.
pub open spec fn instrumented_text(d: FnDecl) -> Seq<char> {
    header_text(d) + instrumented_body_text(d)
}

/// The new body up to the original one: the start instant, the argument
/// description, and the opening of the wrapper that binds the body's value at
/// the declared return type.
pub open spec fn before_body_text(d: FnDecl) -> Seq<char> {
    " { "@ + START_STATEMENT@ + args_statement_text(d.params@) + "let __nekotracing_res: "@ + return_type_text(
        d.output,
    ) + " = "@ + (if d.is_async {
        "async move "@
    } else {
        "(move || "@
    })
}

/// The new body after the original one: the wrapper is closed (and awaited),
/// then one record is built and written, then the bound value is returned.
pub open spec fn after_body_text(is_async: bool, name: Seq<char>) -> Seq<char> {
    (if is_async {
        ".await; "@
    } else {
        ")(); "@
    }) + log_statement_text(is_async, name) + write_statement_text(is_async) + " __nekotracing_res }"@
}

/// Instrumenting a synchronous function keeps its attributes, visibility
/// and signature, puts its body unchanged inside a `move` closure that is
/// called at once, binds the value to `__nekotracing_res` at the declared type, then
/// builds and appends one record, and returns `__nekotracing_res`. Nothing around the
/// body depends on the body.
pub proof fn lemma_sync_instrumentation(d: FnDecl)
    requires
        !d.is_async,
    ensures
        instrumented_text(d) == header_text(d) + before_body_text(d) + d.block@ + after_body_text(
            false,
            d.name@,
        ),
        before_body_text(d) == " { "@ + START_STATEMENT@ + args_statement_text(d.params@)
            + "let __nekotracing_res: "@ + return_type_text(d.output) + " = (move || "@,
        after_body_text(false, d.name@) == ")(); "@ + log_statement_text(false, d.name@)
            + SYNC_WRITE@ + " __nekotracing_res }"@,
{
    assert(" = "@ + "(move || "@ =~= " = (move || "@) by {
        reveal_strlit(" = ");
        reveal_strlit("(move || ");
        reveal_strlit(" = (move || ");
    }
    assert(")()"@ + "; "@ =~= ")(); "@) by {
        reveal_strlit(")()");
        reveal_strlit("; ");
        reveal_strlit(")(); ");
    }
    assert(instrumented_text(d) =~= header_text(d) + before_body_text(d) + d.block@
        + after_body_text(false, d.name@));
    assert(before_body_text(d) =~= " { "@ + START_STATEMENT@ + args_statement_text(d.params@)
        + "let __nekotracing_res: "@ + return_type_text(d.output) + " = (move || "@);
}

/// Instrumenting an `async` function keeps its attributes, visibility and
/// signature, puts its body unchanged inside an `async move` block that is
/// awaited to completion, binds the value to `__nekotracing_res` at the declared type, and
/// only then builds one record, appends it through tokio and returns `__nekotracing_res`.
pub proof fn lemma_async_instrumentation(d: FnDecl)
    requires
        d.is_async,
    ensures
        instrumented_text(d) == header_text(d) + before_body_text(d) + d.block@ + after_body_text(
            true,
            d.name@,
        ),
        before_body_text(d) == " { "@ + START_STATEMENT@ + args_statement_text(d.params@)
            + "let __nekotracing_res: "@ + return_type_text(d.output) + " = async move "@,
        after_body_text(true, d.name@) == ".await; "@ + log_statement_text(true, d.name@)
            + ASYNC_WRITE@ + " __nekotracing_res }"@,
{
    assert(" = "@ + "async move "@ =~= " = async move "@) by {
        reveal_strlit(" = ");
        reveal_strlit("async move ");
        reveal_strlit(" = async move ");
    }
    assert(".await"@ + "; "@ =~= ".await; "@) by {
        reveal_strlit(".await");
        reveal_strlit("; ");
        reveal_strlit(".await; ");
    }
    assert(instrumented_text(d) =~= header_text(d) + before_body_text(d) + d.block@
        + after_body_text(true, d.name@));
    assert(before_body_text(d) =~= " { "@ + START_STATEMENT@ + args_statement_text(d.params@)
        + "let __nekotracing_res: "@ + return_type_text(d.output) + " = async move "@);
}

/// The expression that describes one parameter in the record.
pub fn param_expr(p: &FnParam) -> (r: String)
    ensures
        r@ == param_expr_text(*p),
{
    let mut s = String::new();
    match p {
        FnParam::Receiver => {
            push_text(&mut s, "::nekotracing::receiver_entry(&::std::format!(\"{:?}\", self))");
        },
        FnParam::Binding { name } => {
            push_text(&mut s, "::nekotracing::arg_entry(::std::stringify!(");
            push_text(&mut s, name.as_str());
            push_text(&mut s, "), &::std::format!(\"{:?}\", ");
            push_text(&mut s, name.as_str());
            push_text(&mut s, "))");
        },
        FnParam::Pattern { pat } => {
            push_text(&mut s, "::nekotracing::arg_entry(::std::stringify!(");
            push_text(&mut s, pat.as_str());
            push_text(&mut s, "), \"_\")");
        },
    }
    assert(s@ =~= param_expr_text(*p));
    s
}

/// Appends the statement that computes the argument description.
fn push_args_statement(s: &mut String, params: &Vec<FnParam>)
    ensures
        final(s)@ == old(s)@ + args_statement_text(params@),
{
    let mut exprs: Vec<String> = Vec::new();
    let mut i: usize = 0;
    while i < params.len()
        invariant
            i <= params@.len(),
            exprs@.len() == i,
            forall|k: int| 0 <= k < i ==> (#[trigger] exprs@[k])@ == param_expr_text(params@[k]),
        decreases params@.len() - i,
    {
        exprs.push(param_expr(&params[i]));
        i += 1;
    }
    assert(views(exprs@) =~= params@.map_values(|p: FnParam| param_expr_text(p)));
    let list = join_args(&exprs);
    push_text(s, "let __nekotracing_args: ::std::string::String = ::nekotracing::join_args(&::std::vec![");
    push_text(s, list.as_str());
    push_text(s, "]); ");
    assert(final(s)@ =~= old(s)@ + args_statement_text(params@));
}

/// Appends each attribute followed by a space.
fn push_attrs(s: &mut String, attrs: &Vec<String>)
    ensures
        final(s)@ == old(s)@ + attrs_text(views(attrs@)),
{
    let ghost start = s@;
    let mut i: usize = 0;
    while i < attrs.len()
        invariant
            i <= attrs@.len(),
            s@ == start + attrs_text(views(attrs@.take(i as int))),
        decreases attrs@.len() - i,
    {
        push_text(s, attrs[i].as_str());
        push_text(s, " ");
        proof {
            let next = views(attrs@.take(i + 1));
            assert(next.drop_last() =~= views(attrs@.take(i as int)));
            assert(s@ =~= start + attrs_text(next));
        }
        i += 1;
    }
    assert(attrs@.take(attrs@.len() as int) =~= attrs@);
}

/// Appends attributes, visibility and signature.
fn push_header(s: &mut String, decl: &FnDecl)
    ensures
        final(s)@ == old(s)@ + header_text(*decl),
{
    push_attrs(s, &decl.attrs);
    push_text(s, decl.vis.as_str());
    push_text(s, " ");
    push_text(s, decl.sig.as_str());
    assert(final(s)@ =~= old(s)@ + header_text(*decl));
}

/// Appends the statement that binds the original body's value.
fn push_result_statement(s: &mut String, decl: &FnDecl)
    ensures
        final(s)@ == old(s)@ + result_statement_text(*decl),
{
    push_text(s, "let __nekotracing_res: ");
    match &decl.output {
        Some(t) => push_text(s, t.as_str()),
        None => push_text(s, "()"),
    }
    push_text(s, " = ");
    if decl.is_async {
        push_text(s, "async move ");
        push_text(s, decl.block.as_str());
        push_text(s, ".await");
    } else {
        push_text(s, "(move || ");
        push_text(s, decl.block.as_str());
        push_text(s, ")()");
    }
    push_text(s, "; ");
    assert(final(s)@ =~= old(s)@ + result_statement_text(*decl));
}

/// Appends the statement that builds the record.
fn push_log_statement(s: &mut String, is_async: bool, name: &str)
    ensures
        final(s)@ == old(s)@ + log_statement_text(is_async, name@),
{
    push_text(
        s,
        "let __nekotracing_log: ::std::string::String = ::nekotracing::trace_record(::std::file!(), ::std::line!(), ::std::column!(), ",
    );
    if is_async {
        push_text(s, "true");
    } else {
        push_text(s, "false");
    }
    push_text(s, ", ::std::stringify!(");
    push_text(s, name);
    push_text(
        s,
        "), &__nekotracing_args, &::std::format!(\"{:?}\", __nekotracing_res), __nekotracing_start.elapsed().as_nanos()); ",
    );
    assert(final(s)@ =~= old(s)@ + log_statement_text(is_async, name@));
}

/// The declaration with its body instrumented: same attributes, visibility
/// and signature; the body runs the original one, records the call and
/// returns the original value.
pub fn nekotracing(decl: &FnDecl) -> (r: String)
    ensures
        r@ == instrumented_text(*decl),
{
    let mut s = String::new();
    push_header(&mut s, decl);
    let ghost s1 = s@;
    push_text(&mut s, " { ");
    push_text(&mut s, START_STATEMENT);
    push_args_statement(&mut s, &decl.params);
    push_result_statement(&mut s, decl);
    push_log_statement(&mut s, decl.is_async, decl.name.as_str());
    if decl.is_async {
        push_text(&mut s, ASYNC_WRITE);
    } else {
        push_text(&mut s, SYNC_WRITE);
    }
    push_text(&mut s, " __nekotracing_res }");
    assert(s@ =~= s1 + instrumented_body_text(*decl));
    s
}

} // verus!
