//! The code renderer: turns the routing table into the text of a `router`
//! function that builds an `axum::Router`, one `.route(..)` registration
//! per path with the method registrations chained in document order.  The
//! final function wrapping is done by the `codegen` crate behind a trusted
//! wrapper with an exact text contract.

use vstd::prelude::*;
use crate::routes::BindingModel;
use crate::routes::EntryModel;
use crate::routes::MethodBinding;
use crate::routes::RouteEntry;
use crate::routes::RouteTable;
use crate::routes::binding_views;
use crate::routes::entry_views;

verus! {

use vstd::string::StrSliceExecFns;
use vstd::string::StringExecFns;

/// Why a routing table cannot be rendered: some of its text would break
/// the emitted function's line structure.
#[derive(Clone, Copy, Debug, PartialEq, Eq, Structural)]
pub enum RenderError {
    /// A path, method or handler contains a line break.
    UnprintableText,
}

/// No line breaks: the text can stand on a single emitted source line.
pub open spec fn no_ctl(s: Seq<char>) -> bool {
    forall|k: int| 0 <= k < s.len() ==> (#[trigger] s[k]) != '\n' && s[k] != '\r'
}

/// The text of one method registration: `method(handler::name)`.
pub open spec fn binding_fragment(b: BindingModel) -> Seq<char> {
    b.method + "(handler::"@ + b.handler + ")"@
}

/// The method registrations chained with dots, in order.
pub open spec fn chain(bs: Seq<BindingModel>) -> Seq<char>
    decreases bs.len(),
{
    if bs.len() == 0 {
        Seq::empty()
    } else if bs.len() == 1 {
        binding_fragment(bs[0])
    } else {
        binding_fragment(bs[0]) + "."@ + chain(bs.drop_first())
    }
}

/// The text of one route registration:
/// `.route("path", method(handler::name).method(handler::name))`.
pub open spec fn entry_fragment(e: EntryModel) -> Seq<char> {
    ".route(\""@ + e.path + "\", "@ + chain(e.bindings) + ")"@
}

/// The route registrations concatenated in table order.
pub open spec fn entries_text(t: Seq<EntryModel>) -> Seq<char>
    decreases t.len(),
{
    if t.len() == 0 {
        Seq::empty()
    } else {
        entry_fragment(t[0]) + entries_text(t.drop_first())
    }
}

/// The one body line of the emitted function: a fresh router with every
/// registration applied in table order.
pub open spec fn body_line(t: Seq<EntryModel>) -> Seq<char> {
    "axum::Router::new()"@ + entries_text(t)
}

/// The text of a function with the given visibility, name, return type and
/// single body line, as the code-construction facility formats it.
pub open spec fn fn_text(vis: Seq<char>, name: Seq<char>, ret: Seq<char>, line: Seq<char>) -> Seq<
    char,
> {
    vis + " fn "@ + name + "() -> "@ + ret + " {\n    "@ + line + "\n}"@
}

/// The full rendered source: a public `router` function returning an
/// `axum::Router`.
pub open spec fn rendered_source(t: Seq<EntryModel>) -> Seq<char> {
    fn_text("pub"@, "router"@, "axum::Router"@, body_line(t))
}

/// Order preservation in the emitted text: the registrations of a table
/// are the registrations of its front part followed by those of its back
/// part, so entries earlier in the table stand earlier in the text.
pub proof fn lemma_entries_text_concat(a: Seq<EntryModel>, b: Seq<EntryModel>)
    ensures
        entries_text(a + b) == entries_text(a) + entries_text(b),
    decreases a.len(),
{
    if a.len() == 0 {
        assert(a + b =~= b);
        assert(entries_text(a) + entries_text(b) =~= entries_text(b));
    } else {
        assert((a + b)[0] == a[0]);
        assert((a + b).drop_first() =~= a.drop_first() + b);
        lemma_entries_text_concat(a.drop_first(), b);
        assert(entry_fragment(a[0]) + (entries_text(a.drop_first()) + entries_text(b)) =~= (
        entry_fragment(a[0]) + entries_text(a.drop_first())) + entries_text(b));
    }
}

/// Relies on `codegen::Scope`, `codegen::Function` and their formatter: a
/// scope with one function with the given visibility, name, return type
/// and one body line renders as the signature line, the body line indented
/// by four spaces, and the closing brace, with no trailing newline.
#[verifier::external_body]
fn emit_function(vis: &str, name: &str, ret: &str, line: &str) -> (r: String)
    requires
        no_ctl(vis@),
        no_ctl(name@),
        no_ctl(ret@),
        no_ctl(line@),
        line@.len() > 0,
    ensures
        r@ == fn_text(vis@, name@, ret@, line@),
{
    let mut scope = codegen::Scope::new();
    scope.new_fn(name).vis(vis).ret(ret).line(line);
    scope.to_string()
}

/// Whether the text contains a line break.
fn has_ctl(s: &str) -> (b: bool)
    ensures
        b == !no_ctl(s@),
{
    let n = s.unicode_len();
    let mut i: usize = 0;
    while i < n
        invariant
            i <= n,
            n == s@.len(),
            forall|k: int| 0 <= k < i ==> (#[trigger] s@[k]) != '\n' && s@[k] != '\r',
        decreases n - i,
    {
        let c = s.get_char(i);
        if c == '\n' || c == '\r' {
            return true;
        }
        i += 1;
    }
    false
}

/// The text of one method registration.
fn binding_fragment_exec(b: &MethodBinding) -> (r: String)
    ensures
        r@ == binding_fragment(b@),
{
    let mut s = b.method.clone();
    s.append("(handler::");
    s.append(b.handler.as_str());
    s.append(")");
    s
}

/// The chained method registrations from position `i` on.
fn chain_from(bs: &Vec<MethodBinding>, i: usize) -> (r: String)
    requires
        i <= bs.len(),
    ensures
        r@ == chain(binding_views(bs@).skip(i as int)),
    decreases bs.len() - i,
{
    let ghost sub = binding_views(bs@).skip(i as int);
    if i == bs.len() {
        proof {
            assert(sub =~= Seq::<BindingModel>::empty());
        }
        String::new()
    } else if i + 1 == bs.len() {
        let r = binding_fragment_exec(&bs[i]);
        proof {
            assert(sub.len() == 1);
            assert(sub[0] == bs@[i as int]@);
        }
        r
    } else {
        let mut s = binding_fragment_exec(&bs[i]);
        s.append(".");
        let rest = chain_from(bs, i + 1);
        let out = s.concat(rest.as_str());
        proof {
            assert(sub[0] == bs@[i as int]@);
            assert(sub.drop_first() =~= binding_views(bs@).skip(i as int + 1));
        }
        out
    }
}

/// The route registrations from position `i` on.
fn entries_text_from(es: &Vec<RouteEntry>, i: usize) -> (r: String)
    requires
        i <= es.len(),
    ensures
        r@ == entries_text(entry_views(es@).skip(i as int)),
    decreases es.len() - i,
{
    let ghost sub = entry_views(es@).skip(i as int);
    if i == es.len() {
        proof {
            assert(sub =~= Seq::<EntryModel>::empty());
        }
        String::new()
    } else {
        let mut s = String::from_str(".route(\"");
        s.append(es[i].path.as_str());
        s.append("\", ");
        let c = chain_from(&es[i].bindings, 0);
        s.append(c.as_str());
        s.append(")");
        let rest = entries_text_from(es, i + 1);
        let out = s.concat(rest.as_str());
        proof {
            assert(binding_views(es@[i as int].bindings@).skip(0) =~= binding_views(
                es@[i as int].bindings@,
            ));
            assert(sub[0] == es@[i as int]@);
            assert(s@ == entry_fragment(sub[0]));
            assert(sub.drop_first() =~= entry_views(es@).skip(i as int + 1));
        }
        out
    }
}

/// The one body line of the emitted function.
fn body_line_exec(t: &RouteTable) -> (r: String)
    ensures
        r@ == body_line(t@),
{
    let mut s = String::from_str("axum::Router::new()");
    let rest = entries_text_from(&t.entries, 0);
    proof {
        assert(entry_views(t.entries@).skip(0) =~= entry_views(t.entries@));
    }
    s.concat(rest.as_str())
}

/// Renders the routing table as the source text of a public `router`
/// function, with one registration per entry and the methods chained in
/// table order; fails exactly when some text of the table carries a line
/// break, which the emitted line structure could not hold.
pub fn render(t: &RouteTable) -> (r: Result<String, RenderError>)
    ensures
        (match r {
            Ok(s) => no_ctl(body_line(t@)) && s@ == rendered_source(t@),
            Err(e) => !no_ctl(body_line(t@)) && e == RenderError::UnprintableText,
        }),
{
    let line = body_line_exec(t);
    if has_ctl(line.as_str()) {
        Err(RenderError::UnprintableText)
    } else {
        proof {
            reveal_strlit("axum::Router::new()");
            reveal_strlit("pub");
            reveal_strlit("router");
            reveal_strlit("axum::Router");
            assert(no_ctl("pub"@));
            assert(no_ctl("router"@));
            assert(no_ctl("axum::Router"@));
            assert(line@.len() > 0);
        }
        Ok(emit_function("pub", "router", "axum::Router", line.as_str()))
    }
}

} // verus!
