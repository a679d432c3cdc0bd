//! What the `Template` derive reads from the attributes of a struct's fields, and what
//! it makes of them: each property's metadata and how its default is made.
//!
//! All attributes are put inside `#[config(...)]` or `#[config_it(...)]`:
//!
//! - `alias = "<name>"`: set an alias for the field.
//! - `default = <expr>`: set the default value of the field.
//! - `default_expr = "<expr>"`: set the default value of the field, as text.
//! - `admin | admin_write | admin_read`: prohibit access to the field for users.
//! - `min = <expr> | max = <expr> | one_of(<expr>, ...) | one_of = [<expr>, ...]`:
//!   constraints on the field.
//! - `env = "<literal>"`: read the default value from an environment variable.
//! - `env_once = "<literal>"`: as `env`, but the value is read once.
//! - `transient | no_export | no_import`: prohibit export or import of the field.
//! - `editor = <expr>`: set the editor hint of the field.
//! - `hide`: hide the field from the editor.
//!
//! Fields that are not part of the configuration may get their default from
//! `#[non_config_default_expr = "<expr>"]`.
//!
//! The derive hands over each attribute as plain values: names and source texts of
//! expressions, and for string and array literals what they hold.
use vstd::prelude::*;

use crate::entity::EntityValue;
use crate::text::str_eq;

verus! {

/// How an expression in an attribute reads.
#[derive(Debug)]
pub enum ExprKind {
    /// A string literal, with its value.
    Str(String),
    /// An array literal, with the source text of each element.
    Array(Vec<String>),
    /// Any other expression.
    Other,
}

/// An expression in an attribute: its source text and how it reads.
#[derive(Debug)]
pub struct AttrExpr {
    pub text: String,
    pub kind: ExprKind,
}

/// One argument of `#[config(...)]`, with the path that names it.
#[derive(Debug)]
pub enum MetaArg {
    /// A bare path, such as `no_import`.
    Path(String),
    /// A path with a list, such as `one_of("a", "b")`: the path, and the source text of
    /// each element of the list.
    List(String, Vec<String>),
    /// A path with a value, such as `min = 3`.
    NameValue(String, AttrExpr),
}

/// What went wrong, or looks wrong, in an attribute.
#[derive(Debug, Clone, Copy, PartialEq, Eq, Structural)]
pub enum Diagnostic {
    /// Error: the arguments of a config attribute are no valid list.
    ExpectedArgumentList,
    /// Warning: a bare argument that no option is named by.
    UnknownAttribute,
    /// Warning: an argument with a list, which no option takes.
    UnexpectedList,
    /// Error: `one_of` is not given an array literal.
    ExpectedArrayLiteral,
    /// Error: a string literal was expected.
    ExpectedStringLiteral,
    /// Error: a second config attribute on the same field.
    DuplicateConfigAttribute,
    /// Error: a config attribute with a value, rather than a list.
    UnexpectedValue,
    /// Error: `non_config_default_expr` without a value.
    ExpectedExpression,
    /// Error: a string that does not hold a valid expression.
    ExpectedValidExpression,
    /// Error: a doc attribute whose value is no string literal; the derive stops.
    DocNotString,
}

/// The default of a property, as the attribute gave it.
#[derive(Debug)]
pub enum FieldPropertyDefault {
    /// `default = <expr>`: the expression's source text.
    Expr(String),
    /// `default_expr = "<expr>"`: the string's value.
    ExprStr(String),
}

/// The options of a configuration property, as its attribute gives them.
#[derive(Debug)]
pub struct FieldProperty {
    pub alias: Option<String>,
    pub default: Option<FieldPropertyDefault>,
    pub admin: bool,
    pub admin_write: bool,
    pub admin_read: bool,
    pub min: Option<String>,
    pub max: Option<String>,
    pub one_of: Option<Vec<String>>,
    /// Whether the variable is read once, and its name.
    pub env: Option<(bool, String)>,
    pub transient: bool,
    pub no_export: bool,
    pub no_import: bool,
    pub editor: Option<String>,
    pub hide: bool,
}

/// The options of a property whose attribute gives none.
pub open spec fn no_options() -> FieldProperty {
    FieldProperty {
        alias: None,
        default: None,
        admin: false,
        admin_write: false,
        admin_read: false,
        min: None,
        max: None,
        one_of: None,
        env: None,
        transient: false,
        no_export: false,
        no_import: false,
        editor: None,
        hide: false,
    }
}

/// The value of a string literal, or the error for anything else.
pub open spec fn lit_str(e: AttrExpr) -> (Option<String>, Seq<Diagnostic>) {
    match e.kind {
        ExprKind::Str(s) => (Some(s), seq![]),
        _ => (None, seq![Diagnostic::ExpectedStringLiteral]),
    }
}

/// The options after one argument, and what it reported.
pub open spec fn apply_arg(r: FieldProperty, arg: MetaArg) -> (FieldProperty, Seq<Diagnostic>) {
    match arg {
        MetaArg::Path(p) => {
            if p@ == "admin"@ {
                (FieldProperty { admin: true, ..r }, seq![])
            } else if p@ == "admin_write"@ {
                (FieldProperty { admin_write: true, ..r }, seq![])
            } else if p@ == "admin_read"@ {
                (FieldProperty { admin_read: true, ..r }, seq![])
            } else if p@ == "transient"@ {
                (FieldProperty { transient: true, ..r }, seq![])
            } else if p@ == "no_export"@ {
                (FieldProperty { no_export: true, ..r }, seq![])
            } else if p@ == "no_import"@ {
                (FieldProperty { no_import: true, ..r }, seq![])
            } else if p@ == "hide"@ {
                (FieldProperty { hide: true, ..r }, seq![])
            } else {
                (r, seq![Diagnostic::UnknownAttribute])
            }
        },
        MetaArg::List(p, items) => if p@ == "one_of"@ {
            (FieldProperty { one_of: Some(items), ..r }, seq![])
        } else {
            (r, seq![Diagnostic::UnexpectedList])
        },
        MetaArg::NameValue(p, v) => {
            if p@ == "default"@ {
                (FieldProperty { default: Some(FieldPropertyDefault::Expr(v.text)), ..r }, seq![])
            } else if p@ == "default_expr"@ {
                let (s, d) = lit_str(v);
                (
                    FieldProperty {
                        default: match s {
                            Some(x) => Some(FieldPropertyDefault::ExprStr(x)),
                            None => None,
                        },
                        ..r
                    },
                    d,
                )
            } else if p@ == "alias"@ {
                let (s, d) = lit_str(v);
                (FieldProperty { alias: s, ..r }, d)
            } else if p@ == "min"@ {
                (FieldProperty { min: Some(v.text), ..r }, seq![])
            } else if p@ == "max"@ {
                (FieldProperty { max: Some(v.text), ..r }, seq![])
            } else if p@ == "one_of"@ {
                match v.kind {
                    ExprKind::Array(items) => (FieldProperty { one_of: Some(items), ..r }, seq![]),
                    _ => (r, seq![Diagnostic::ExpectedArrayLiteral]),
                }
            } else if p@ == "env_once"@ {
                let (s, d) = lit_str(v);
                (
                    FieldProperty {
                        env: match s {
                            Some(x) => Some((true, x)),
                            None => None,
                        },
                        ..r
                    },
                    d,
                )
            } else if p@ == "env"@ {
                let (s, d) = lit_str(v);
                (
                    FieldProperty {
                        env: match s {
                            Some(x) => Some((false, x)),
                            None => None,
                        },
                        ..r
                    },
                    d,
                )
            } else if p@ == "editor"@ {
                (FieldProperty { editor: Some(v.text), ..r }, seq![])
            } else {
                (r, seq![])
            }
        },
    }
}

/// The options that a list of arguments gives, read in order, and what they reported.
pub open spec fn apply_args(args: Seq<MetaArg>) -> (FieldProperty, Seq<Diagnostic>)
    decreases args.len(),
{
    if args.len() == 0 {
        (no_options(), seq![])
    } else {
        let (r, d) = apply_args(args.drop_last());
        let (r2, d2) = apply_arg(r, args.last());
        (r2, d + d2)
    }
}

/// The argument is the bare option `name`.
pub open spec fn is_option(a: MetaArg, name: Seq<char>) -> bool {
    match a {
        MetaArg::Path(p) => p@ == name,
        _ => false,
    }
}

/// Some argument of the list is the bare option `name`.
pub open spec fn names_option(args: Seq<MetaArg>, name: Seq<char>) -> bool {
    exists|i: int| 0 <= i < args.len() && is_option(#[trigger] args[i], name)
}

/// Each flag of the options that a list of arguments gives is set exactly where some
/// argument is the bare option of that name: `admin`, `admin_write`, `admin_read`,
/// `transient`, `no_export`, `no_import` or `hide`. No other argument touches a flag.
pub proof fn lemma_flags_follow_names(args: Seq<MetaArg>)
    ensures
        apply_args(args).0.admin == names_option(args, "admin"@),
        apply_args(args).0.admin_write == names_option(args, "admin_write"@),
        apply_args(args).0.admin_read == names_option(args, "admin_read"@),
        apply_args(args).0.transient == names_option(args, "transient"@),
        apply_args(args).0.no_export == names_option(args, "no_export"@),
        apply_args(args).0.no_import == names_option(args, "no_import"@),
        apply_args(args).0.hide == names_option(args, "hide"@),
    decreases args.len(),
{
    reveal_strlit("admin");
    reveal_strlit("admin_write");
    reveal_strlit("admin_read");
    reveal_strlit("transient");
    reveal_strlit("no_export");
    reveal_strlit("no_import");
    reveal_strlit("hide");
    reveal_strlit("one_of");
    reveal_strlit("default");
    reveal_strlit("default_expr");
    reveal_strlit("alias");
    reveal_strlit("min");
    reveal_strlit("max");
    reveal_strlit("env_once");
    reveal_strlit("env");
    reveal_strlit("editor");
    if args.len() > 0 {
        let front = args.drop_last();
        lemma_flags_follow_names(front);
        let n = args.len() - 1;
        assert(args.last() == args[n]);
        assert("admin"@.len() == 5 && "admin_write"@.len() == 11 && "admin_read"@.len() == 10);
        assert("admin_write"@ != "admin_read"@) by {
            assert("admin_write"@[6] != "admin_read"@[6]);
        }
        assert("transient"@.len() == 9 && "no_export"@.len() == 9 && "no_import"@.len() == 9 && "hide"@.len() == 4);
        assert("transient"@ != "no_export"@) by {
            assert("transient"@[0] != "no_export"@[0]);
        }
        assert("transient"@ != "no_import"@) by {
            assert("transient"@[0] != "no_import"@[0]);
        }
        assert("no_export"@ != "no_import"@) by {
            assert("no_export"@[3] != "no_import"@[3]);
        }
        assert forall|name: Seq<char>| #[trigger] names_option(args, name) == (names_option(front, name) || is_option(args[n], name)) by {
            if names_option(front, name) {
                let i = choose|i: int| 0 <= i < front.len() && is_option(#[trigger] front[i], name);
                assert(args[i] == front[i]);
            }
            if names_option(args, name) && !is_option(args[n], name) {
                let i = choose|i: int| 0 <= i < args.len() && is_option(#[trigger] args[i], name);
                assert(i != n);
                assert(front[i] == args[i]);
            }
        }
    }
}

/// Whether `s` is the text `lit`.
fn same_text(s: &String, lit: &str) -> (r: bool)
    ensures
        r == (s@ == lit@),
{
    str_eq(s.as_str(), lit)
}

/// The value of a string literal, or the error for anything else.
fn take_lit_str(e: AttrExpr) -> (r: (Option<String>, Vec<Diagnostic>))
    ensures
        r.0 == lit_str(e).0,
        r.1@ == lit_str(e).1,
{
    match e.kind {
        ExprKind::Str(s) => (Some(s), Vec::new()),
        _ => (None, vec![Diagnostic::ExpectedStringLiteral]),
    }
}

/// Applies one argument to the options.
fn apply_one(r: FieldProperty, arg: MetaArg) -> (out: (FieldProperty, Vec<Diagnostic>))
    ensures
        out.0 == apply_arg(r, arg).0,
        out.1@ == apply_arg(r, arg).1,
{
    proof {
        reveal_strlit("admin");
        reveal_strlit("admin_write");
        reveal_strlit("admin_read");
        reveal_strlit("transient");
        reveal_strlit("no_export");
        reveal_strlit("no_import");
        reveal_strlit("hide");
        reveal_strlit("default");
        reveal_strlit("default_expr");
        reveal_strlit("alias");
        reveal_strlit("min");
        reveal_strlit("max");
        reveal_strlit("one_of");
        reveal_strlit("env_once");
        reveal_strlit("env");
        reveal_strlit("editor");
    }
    match arg {
        MetaArg::Path(p) => {
            if same_text(&p, "admin") {
                (FieldProperty { admin: true, ..r }, Vec::new())
            } else if same_text(&p, "admin_write") {
                (FieldProperty { admin_write: true, ..r }, Vec::new())
            } else if same_text(&p, "admin_read") {
                (FieldProperty { admin_read: true, ..r }, Vec::new())
            } else if same_text(&p, "transient") {
                (FieldProperty { transient: true, ..r }, Vec::new())
            } else if same_text(&p, "no_export") {
                (FieldProperty { no_export: true, ..r }, Vec::new())
            } else if same_text(&p, "no_import") {
                (FieldProperty { no_import: true, ..r }, Vec::new())
            } else if same_text(&p, "hide") {
                (FieldProperty { hide: true, ..r }, Vec::new())
            } else {
                (r, vec![Diagnostic::UnknownAttribute])
            }
        },
        MetaArg::List(p, items) => if same_text(&p, "one_of") {
            (FieldProperty { one_of: Some(items), ..r }, Vec::new())
        } else {
            (r, vec![Diagnostic::UnexpectedList])
        },
        MetaArg::NameValue(p, v) => {
            if same_text(&p, "default") {
                (FieldProperty { default: Some(FieldPropertyDefault::Expr(v.text)), ..r }, Vec::new())
            } else if same_text(&p, "default_expr") {
                let (s, d) = take_lit_str(v);
                let default = match s {
                    Some(x) => Some(FieldPropertyDefault::ExprStr(x)),
                    None => None,
                };
                (FieldProperty { default, ..r }, d)
            } else if same_text(&p, "alias") {
                let (s, d) = take_lit_str(v);
                (FieldProperty { alias: s, ..r }, d)
            } else if same_text(&p, "min") {
                (FieldProperty { min: Some(v.text), ..r }, Vec::new())
            } else if same_text(&p, "max") {
                (FieldProperty { max: Some(v.text), ..r }, Vec::new())
            } else if same_text(&p, "one_of") {
                match v.kind {
                    ExprKind::Array(items) => (FieldProperty { one_of: Some(items), ..r }, Vec::new()),
                    _ => (r, vec![Diagnostic::ExpectedArrayLiteral]),
                }
            } else if same_text(&p, "env_once") {
                let (s, d) = take_lit_str(v);
                let env = match s {
                    Some(x) => Some((true, x)),
                    None => None,
                };
                (FieldProperty { env, ..r }, d)
            } else if same_text(&p, "env") {
                let (s, d) = take_lit_str(v);
                let env = match s {
                    Some(x) => Some((false, x)),
                    None => None,
                };
                (FieldProperty { env, ..r }, d)
            } else if same_text(&p, "editor") {
                (FieldProperty { editor: Some(v.text), ..r }, Vec::new())
            } else {
                (r, Vec::new())
            }
        },
    }
}

/// The options that `#[config(...)]` gives a field: `args` are its arguments, `None`
/// where they are no valid list, which is an error. Arguments apply in order; a later
/// one replaces what an earlier one set. Returns the options, `None` on that error, and
/// what the arguments reported, in order.
pub fn from_meta_list(args: Option<Vec<MetaArg>>) -> (r: (Option<FieldProperty>, Vec<Diagnostic>))
    ensures
        match args {
            None => r.0 is None && r.1@ == seq![Diagnostic::ExpectedArgumentList],
            Some(a) => r.0 == Some(apply_args(a@).0) && r.1@ == apply_args(a@).1,
        },
{
    let mut rest = match args {
        None => return (None, vec![Diagnostic::ExpectedArgumentList]),
        Some(a) => a,
    };
    let ghost orig = rest@;
    let mut r = FieldProperty {
        alias: None,
        default: None,
        admin: false,
        admin_write: false,
        admin_read: false,
        min: None,
        max: None,
        one_of: None,
        env: None,
        transient: false,
        no_export: false,
        no_import: false,
        editor: None,
        hide: false,
    };
    let mut diags: Vec<Diagnostic> = Vec::new();
    let ghost mut done: int = 0;
    proof {
        assert(orig.subrange(0, 0) =~= Seq::<MetaArg>::empty());
        assert(orig.subrange(0, orig.len() as int) =~= orig);
    }
    while rest.len() > 0
        invariant
            0 <= done <= orig.len(),
            rest@ == orig.subrange(done, orig.len() as int),
            r == apply_args(orig.subrange(0, done)).0,
            diags@ == apply_args(orig.subrange(0, done)).1,
        decreases rest@.len(),
    {
        let arg = rest.remove(0);
        proof {
            assert(orig.subrange(0, done + 1).drop_last() =~= orig.subrange(0, done));
            assert(orig.subrange(0, done + 1).last() == arg);
        }
        let (next, mut d) = apply_one(r, arg);
        r = next;
        diags.append(&mut d);
        proof {
            done = done + 1;
            assert(rest@ =~= orig.subrange(done, orig.len() as int));
        }
    }
    proof {
        assert(orig.subrange(0, done) =~= orig);
    }
    (Some(r), diags)
}

/* ------------------------------------------------------------------------------------------ */
/*                                           Fields                                           */
/* ------------------------------------------------------------------------------------------ */

/// An attribute of a field, as far as the derive reads it.
#[derive(Debug)]
pub enum FieldAttr {
    /// `#[doc = ...]`: the string it holds, `None` where its value is no string literal.
    Doc(Option<String>),
    /// `#[config]` or `#[config_it]`, without arguments.
    ConfigPath,
    /// `#[config(...)]` or `#[config_it(...)]`: the arguments, `None` where they are no
    /// valid list.
    ConfigList(Option<Vec<MetaArg>>),
    /// `#[config = ...]` or `#[config_it = ...]`.
    ConfigValue,
    /// `#[non_config_default_expr ...]`: `None` without a value; else the value, with
    /// whether the text of a string literal parses as an expression.
    NonConfigDefault(Option<(AttrExpr, bool)>),
    /// Any other attribute, which the derive passes over.
    Other,
}

/// What the derive makes of a field.
#[derive(Debug)]
pub enum FieldType {
    /// Not part of the configuration; defaults with `Default::default()`.
    Plain,
    /// Not part of the configuration; defaults with the given expression.
    PlainWithDefaultExpr(String),
    /// A configuration property with these options.
    Property(FieldProperty),
}

/// What the derive makes of a field: its kind, its doc lines, and what its attributes
/// reported, in order.
#[derive(Debug)]
pub struct FieldPlan {
    pub field_type: FieldType,
    pub docs: Vec<String>,
    pub diagnostics: Vec<Diagnostic>,
}

/// The plan of a field after one more attribute; `None` where the derive stops.
pub open spec fn plan_attr(t: FieldType, docs: Seq<String>, d: Seq<Diagnostic>, a: FieldAttr) -> Option<
    (FieldType, Seq<String>, Seq<Diagnostic>),
> {
    match a {
        FieldAttr::Doc(None) => None,
        FieldAttr::Doc(Some(s)) => Some((t, docs.push(s), d)),
        FieldAttr::ConfigPath => if t is Plain {
            Some((FieldType::Property(no_options()), docs, d))
        } else {
            Some((t, docs, d.push(Diagnostic::DuplicateConfigAttribute)))
        },
        FieldAttr::ConfigList(args) => if t is Plain {
            match args {
                None => Some((t, docs, d.push(Diagnostic::ExpectedArgumentList))),
                Some(a) => Some((FieldType::Property(apply_args(a@).0), docs, d + apply_args(a@).1)),
            }
        } else {
            Some((t, docs, d.push(Diagnostic::DuplicateConfigAttribute)))
        },
        FieldAttr::ConfigValue => if t is Plain {
            Some((t, docs, d.push(Diagnostic::UnexpectedValue)))
        } else {
            Some((t, docs, d.push(Diagnostic::DuplicateConfigAttribute)))
        },
        FieldAttr::NonConfigDefault(None) => Some((t, docs, d.push(Diagnostic::ExpectedExpression))),
        FieldAttr::NonConfigDefault(Some((e, parses))) => match e.kind {
            ExprKind::Str(s) => if parses {
                Some((FieldType::PlainWithDefaultExpr(s), docs, d))
            } else {
                Some((t, docs, d.push(Diagnostic::ExpectedValidExpression)))
            },
            _ => Some(
                (t, docs, d.push(Diagnostic::ExpectedStringLiteral).push(Diagnostic::ExpectedStringLiteral)),
            ),
        },
        FieldAttr::Other => Some((t, docs, d)),
    }
}

/// The plan of a field from its attributes, read in order; `None` where the derive stops.
pub open spec fn plan_attrs(attrs: Seq<FieldAttr>) -> Option<(FieldType, Seq<String>, Seq<Diagnostic>)>
    decreases attrs.len(),
{
    if attrs.len() == 0 {
        Some((FieldType::Plain, seq![], seq![]))
    } else {
        match plan_attrs(attrs.drop_last()) {
            None => None,
            Some((t, docs, d)) => plan_attr(t, docs, d, attrs.last()),
        }
    }
}

/// A plan that stops stays stopped, whatever follows.
proof fn lemma_plan_stops(attrs: Seq<FieldAttr>, k: int)
    requires
        0 <= k <= attrs.len(),
        plan_attrs(attrs.subrange(0, k)) is None,
    ensures
        plan_attrs(attrs) is None,
    decreases attrs.len() - k,
{
    if k < attrs.len() {
        assert(attrs.subrange(0, k + 1).drop_last() =~= attrs.subrange(0, k));
        lemma_plan_stops(attrs, k + 1);
    } else {
        assert(attrs.subrange(0, k) =~= attrs);
    }
}

/// Reads the attributes of a field in order. A doc attribute whose value is no string
/// literal stops the derive: `Err(DocNotString)`.
pub fn plan_field(attrs: Vec<FieldAttr>) -> (r: Result<FieldPlan, Diagnostic>)
    ensures
        match plan_attrs(attrs@) {
            None => r == Err::<FieldPlan, Diagnostic>(Diagnostic::DocNotString),
            Some((t, docs, d)) => r is Ok && r->Ok_0.field_type == t && r->Ok_0.docs@ == docs
                && r->Ok_0.diagnostics@ == d,
        },
{
    let ghost orig = attrs@;
    let mut rest = attrs;
    let mut field_type = FieldType::Plain;
    let mut docs: Vec<String> = Vec::new();
    let mut diags: Vec<Diagnostic> = Vec::new();
    let ghost mut done: int = 0;
    proof {
        assert(orig.subrange(0, 0) =~= Seq::<FieldAttr>::empty());
        assert(orig.subrange(0, orig.len() as int) =~= orig);
    }
    while rest.len() > 0
        invariant
            orig == attrs@,
            0 <= done <= orig.len(),
            rest@ == orig.subrange(done, orig.len() as int),
            plan_attrs(orig.subrange(0, done)) == Some((field_type, docs@, diags@)),
        decreases rest@.len(),
    {
        let a = rest.remove(0);
        proof {
            assert(orig.subrange(0, done + 1).drop_last() =~= orig.subrange(0, done));
            assert(orig.subrange(0, done + 1).last() == a);
        }
        let is_plain = match field_type {
            FieldType::Plain => true,
            _ => false,
        };
        match a {
            FieldAttr::Doc(None) => {
                proof {
                    assert(plan_attrs(orig.subrange(0, done + 1)) is None);
                    lemma_plan_stops(orig, done + 1);
                }
                return Err(Diagnostic::DocNotString);
            },
            FieldAttr::Doc(Some(s)) => {
                docs.push(s);
            },
            FieldAttr::ConfigPath => {
                if is_plain {
                    field_type = FieldType::Property(FieldProperty {
                        alias: None,
                        default: None,
                        admin: false,
                        admin_write: false,
                        admin_read: false,
                        min: None,
                        max: None,
                        one_of: None,
                        env: None,
                        transient: false,
                        no_export: false,
                        no_import: false,
                        editor: None,
                        hide: false,
                    });
                } else {
                    diags.push(Diagnostic::DuplicateConfigAttribute);
                }
            },
            FieldAttr::ConfigList(args) => {
                if is_plain {
                    let (prop, mut d) = from_meta_list(args);
                    diags.append(&mut d);
                    match prop {
                        Some(x) => {
                            field_type = FieldType::Property(x);
                        },
                        None => {},
                    }
                } else {
                    diags.push(Diagnostic::DuplicateConfigAttribute);
                }
            },
            FieldAttr::ConfigValue => {
                if is_plain {
                    diags.push(Diagnostic::UnexpectedValue);
                } else {
                    diags.push(Diagnostic::DuplicateConfigAttribute);
                }
            },
            FieldAttr::NonConfigDefault(None) => {
                diags.push(Diagnostic::ExpectedExpression);
            },
            FieldAttr::NonConfigDefault(Some((e, parses))) => {
                match e.kind {
                    ExprKind::Str(s) => {
                        if parses {
                            field_type = FieldType::PlainWithDefaultExpr(s);
                        } else {
                            diags.push(Diagnostic::ExpectedValidExpression);
                        }
                    },
                    _ => {
                        diags.push(Diagnostic::ExpectedStringLiteral);
                        diags.push(Diagnostic::ExpectedStringLiteral);
                    },
                }
            },
            FieldAttr::Other => {},
        }
        proof {
            done = done + 1;
            assert(rest@ =~= orig.subrange(done, orig.len() as int));
        }
    }
    proof {
        assert(orig.subrange(0, done) =~= orig);
    }
    Ok(FieldPlan { field_type, docs, diagnostics: diags })
}

/// How the default value of a property is made.
#[derive(Debug)]
pub enum DefaultInit {
    /// `(<expr>).to_owned()`, for `default = <expr>`.
    Owned(String),
    /// The expression that `default_expr` holds.
    Parsed(String),
    /// `Default::default()`.
    Trait,
}

/// How a property's default is made: the initializer, and the environment variable that
/// overrides it, with whether the variable is read once.
#[derive(Debug)]
pub struct DefaultPlan {
    pub init: DefaultInit,
    pub env: Option<(bool, String)>,
}

/// Decides how the default of a property with options `prop` is made; `parses` tells
/// whether the text of `default_expr`, where there is one, parses as an expression.
/// Where it does not, the property is left out with that error.
pub fn default_plan(prop: &FieldProperty, parses: bool) -> (r: Result<DefaultPlan, Diagnostic>)
    ensures
        match prop.default {
            Some(FieldPropertyDefault::ExprStr(_)) if !parses => r == Err::<DefaultPlan, Diagnostic>(
                Diagnostic::ExpectedValidExpression,
            ),
            _ => r is Ok && r->Ok_0.env == prop.env && match (prop.default, r->Ok_0.init) {
                (Some(FieldPropertyDefault::Expr(e)), DefaultInit::Owned(x)) => x == e,
                (Some(FieldPropertyDefault::ExprStr(e)), DefaultInit::Parsed(x)) => x == e,
                (None, DefaultInit::Trait) => true,
                _ => false,
            },
        },
{
    let init = match &prop.default {
        Some(FieldPropertyDefault::Expr(e)) => DefaultInit::Owned(e.clone()),
        Some(FieldPropertyDefault::ExprStr(e)) => {
            if !parses {
                return Err(Diagnostic::ExpectedValidExpression);
            }
            DefaultInit::Parsed(e.clone())
        },
        None => DefaultInit::Trait,
    };
    let env = match &prop.env {
        Some((once, name)) => Some((*once, name.clone())),
        None => None,
    };
    Ok(DefaultPlan { init, env })
}

/// The initial value of a property whose default is made as `plan` says. `from_env` is
/// the value of the plan's environment variable read as the property's type: `None` where
/// the variable is not set or does not parse. A variable that is set and parses wins;
/// otherwise the property gets `default`, the value of the plan's initializer.
pub fn initial_value(plan: &DefaultPlan, from_env: Option<EntityValue>, default: EntityValue) -> (r: EntityValue)
    ensures
        r == match (plan.env, from_env) {
            (Some(_), Some(v)) => v,
            _ => default,
        },
{
    match (&plan.env, from_env) {
        (Some(_), Some(v)) => v,
        _ => default,
    }
}

/* ------------------------------------------------------------------------------------------ */
/*                                 The older attribute grammar                                */
/* ------------------------------------------------------------------------------------------ */

/// An item inside `#[config_it(...)]`, in the older grammar.
#[derive(Debug)]
pub enum NestedMeta {
    /// `path(...)`: the path, and the source text of what the list holds.
    List(String, String),
    /// `path = <literal>`: the path, and the literal's source text.
    NameValue(String, String),
    /// A bare path.
    Path(String),
    /// A bare literal.
    Lit(String),
}

/// How an attribute's tokens parse, in the older grammar.
#[derive(Debug)]
pub enum ParsedMeta {
    /// `#[path(...)]`.
    List(Vec<NestedMeta>),
    /// `#[path = <literal>]`, with the literal's source text.
    NameValue(String),
    /// `#[path]`.
    Path,
    /// The tokens do not parse.
    Unparsed,
}

/// An attribute in the older grammar: its path, and how its tokens parse.
#[derive(Debug)]
pub struct LegacyAttr {
    pub path: String,
    pub meta: ParsedMeta,
}

/// What the older grammar reads from a field's attributes; literals are kept as source
/// text.
#[derive(Debug)]
pub struct FieldDesc {
    pub visibility: String,
    pub identifier: String,
    pub src_type: String,
    pub docstring: String,
    pub alias: Option<String>,
    pub default_value: Option<String>,
    pub default_expr: Option<String>,
    pub min: Option<String>,
    pub max: Option<String>,
    /// The source text of the `one_of(...)` list.
    pub one_of: Option<String>,
    pub env_var: Option<String>,
    pub flag_transient: bool,
    pub flag_disable_import: bool,
    pub flag_disable_export: bool,
    pub flag_hidden: bool,
}

/// Why the older grammar refuses an attribute or a type.
#[derive(Debug, Clone, Copy, PartialEq, Eq, Structural)]
pub enum LegacyError {
    /// A value with a name that no option has.
    UnknownAttribute,
    /// An item that the grammar does not take.
    InvalidAttribute,
    /// The type is no struct.
    NonStruct,
    /// A field without a name.
    MissingIdentifier,
}

/// The field description after one item of `#[config_it(...)]`, or the error it raises.
/// An `access(...)` list is taken and leaves the description as it is.
pub open spec fn legacy_item(d: FieldDesc, m: NestedMeta) -> Result<FieldDesc, LegacyError> {
    match m {
        NestedMeta::List(p, tokens) => if p@ == "one_of"@ {
            Ok(FieldDesc { one_of: Some(tokens), ..d })
        } else if p@ == "access"@ {
            Ok(d)
        } else {
            Err(LegacyError::InvalidAttribute)
        },
        NestedMeta::NameValue(p, lit) => if p@ == "min"@ {
            Ok(FieldDesc { min: Some(lit), ..d })
        } else if p@ == "max"@ {
            Ok(FieldDesc { max: Some(lit), ..d })
        } else if p@ == "default_expr"@ {
            Ok(FieldDesc { default_expr: Some(lit), ..d })
        } else if p@ == "default"@ {
            Ok(FieldDesc { default_value: Some(lit), ..d })
        } else if p@ == "env"@ {
            Ok(FieldDesc { env_var: Some(lit), ..d })
        } else if p@ == "alias"@ {
            Ok(FieldDesc { alias: Some(lit), ..d })
        } else {
            Err(LegacyError::UnknownAttribute)
        },
        NestedMeta::Path(p) => if p@ == "no_export"@ {
            Ok(FieldDesc { flag_disable_export: true, ..d })
        } else if p@ == "no_import"@ {
            Ok(FieldDesc { flag_disable_import: true, ..d })
        } else if p@ == "hidden"@ {
            Ok(FieldDesc { flag_hidden: true, ..d })
        } else if p@ == "transient"@ {
            Ok(FieldDesc { flag_disable_import: true, flag_disable_export: true, ..d })
        } else {
            Err(LegacyError::InvalidAttribute)
        },
        NestedMeta::Lit(_) => Err(LegacyError::InvalidAttribute),
    }
}

/// The field description after the items `ms` in order, or the first error; with the
/// description as it stood when the error was raised.
pub open spec fn legacy_items(d: FieldDesc, ms: Seq<NestedMeta>) -> (FieldDesc, Option<LegacyError>)
    decreases ms.len(),
{
    if ms.len() == 0 {
        (d, None)
    } else {
        match legacy_item(d, ms[0]) {
            Ok(d2) => legacy_items(d2, ms.drop_first()),
            Err(e) => (d, Some(e)),
        }
    }
}

/// Applies one item of `#[config_it(...)]` to a field description.
fn apply_legacy_item(d: FieldDesc, m: NestedMeta) -> (r: Result<FieldDesc, (FieldDesc, LegacyError)>)
    ensures
        match (r, legacy_item(d, m)) {
            (Ok(a), Ok(b)) => a == b,
            (Err((a, e)), Err(f)) => a == d && e == f,
            _ => false,
        },
{
    proof {
        reveal_strlit("one_of");
        reveal_strlit("access");
        reveal_strlit("min");
        reveal_strlit("max");
        reveal_strlit("default_expr");
        reveal_strlit("default");
        reveal_strlit("env");
        reveal_strlit("alias");
        reveal_strlit("no_export");
        reveal_strlit("no_import");
        reveal_strlit("hidden");
        reveal_strlit("transient");
    }
    match m {
        NestedMeta::List(p, tokens) => if same_text(&p, "one_of") {
            Ok(FieldDesc { one_of: Some(tokens), ..d })
        } else if same_text(&p, "access") {
            Ok(d)
        } else {
            Err((d, LegacyError::InvalidAttribute))
        },
        NestedMeta::NameValue(p, lit) => if same_text(&p, "min") {
            Ok(FieldDesc { min: Some(lit), ..d })
        } else if same_text(&p, "max") {
            Ok(FieldDesc { max: Some(lit), ..d })
        } else if same_text(&p, "default_expr") {
            Ok(FieldDesc { default_expr: Some(lit), ..d })
        } else if same_text(&p, "default") {
            Ok(FieldDesc { default_value: Some(lit), ..d })
        } else if same_text(&p, "env") {
            Ok(FieldDesc { env_var: Some(lit), ..d })
        } else if same_text(&p, "alias") {
            Ok(FieldDesc { alias: Some(lit), ..d })
        } else {
            Err((d, LegacyError::UnknownAttribute))
        },
        NestedMeta::Path(p) => if same_text(&p, "no_export") {
            Ok(FieldDesc { flag_disable_export: true, ..d })
        } else if same_text(&p, "no_import") {
            Ok(FieldDesc { flag_disable_import: true, ..d })
        } else if same_text(&p, "hidden") {
            Ok(FieldDesc { flag_hidden: true, ..d })
        } else if same_text(&p, "transient") {
            Ok(FieldDesc { flag_disable_import: true, flag_disable_export: true, ..d })
        } else {
            Err((d, LegacyError::InvalidAttribute))
        },
        NestedMeta::Lit(_) => Err((d, LegacyError::InvalidAttribute)),
    }
}

/// What one attribute does to a field description, its doc string aside: attributes
/// other than `config_it` are passed over; `config_it` counts as a configuration attribute, and its items apply in
/// order up to the first error. Returns the description, and whether the attribute is a
/// configuration attribute or the error it raised.
pub open spec fn legacy_attr(d: FieldDesc, a: LegacyAttr) -> (FieldDesc, Result<bool, LegacyError>) {
    if a.path@ == "doc"@ {
        (d, Ok(false))
    } else if a.path@ != "config_it"@ {
        (d, Ok(false))
    } else {
        match a.meta {
            ParsedMeta::List(items) => {
                let (d2, e) = legacy_items(d, items@);
                (
                    d2,
                    match e {
                        Some(err) => Err(err),
                        None => Ok(true),
                    },
                )
            },
            _ => (d, Ok(true)),
        }
    }
}

/// The doc string after one attribute: a doc attribute with a value appends the value's
/// source text.
pub open spec fn legacy_doc(doc: Seq<char>, a: LegacyAttr) -> Seq<char> {
    if a.path@ == "doc"@ {
        match a.meta {
            ParsedMeta::NameValue(lit) => doc + lit@,
            _ => doc,
        }
    } else {
        doc
    }
}

/// Reads one attribute of a field in the older grammar; see [`legacy_attr`] and
/// [`legacy_doc`].
pub fn decompose_attribute(desc: &mut FieldDesc, attr: LegacyAttr) -> (r: Result<bool, LegacyError>)
    ensures
        r == legacy_attr(*old(desc), attr).1,
        final(desc).docstring@ == legacy_doc(old(desc).docstring@, attr),
        (FieldDesc { docstring: old(desc).docstring, ..*final(desc) }) == (FieldDesc {
            docstring: old(desc).docstring,
            ..legacy_attr(*old(desc), attr).0
        }),
{
    proof {
        reveal_strlit("doc");
        reveal_strlit("config_it");
    }
    let LegacyAttr { path, meta } = attr;
    if same_text(&path, "doc") {
        match meta {
            ParsedMeta::NameValue(lit) => {
                crate::text::push_str(&mut desc.docstring, lit.as_str());
            },
            _ => {},
        }
        return Ok(false);
    }
    if !same_text(&path, "config_it") {
        return Ok(false);
    }
    let items = match meta {
        ParsedMeta::List(items) => items,
        _ => {
            return Ok(true);
        },
    };
    let ghost orig = items@;
    let ghost start = *desc;
    let ghost whole = legacy_attr(start, LegacyAttr { path, meta: ParsedMeta::List(items) });
    let mut rest = items;
    let ghost mut done: int = 0;
    proof {
        assert(orig.subrange(0, orig.len() as int) =~= orig);
    }
    while rest.len() > 0
        invariant
            start == *old(desc),
            whole == legacy_attr(*old(desc), attr),
            whole.0 == legacy_items(start, orig).0,
            whole.1 == match legacy_items(start, orig).1 {
                Some(err) => Err::<bool, LegacyError>(err),
                None => Ok::<bool, LegacyError>(true),
            },
            desc.docstring == start.docstring,
            0 <= done <= orig.len(),
            rest@ == orig.subrange(done, orig.len() as int),
            legacy_items(start, orig) == legacy_items(*desc, rest@),
        decreases rest@.len(),
    {
        let m = rest.remove(0);
        proof {
            assert(orig.subrange(done, orig.len() as int).drop_first() =~= rest@);
        }
        let mut cur = FieldDesc {
                visibility: String::new(),
                identifier: String::new(),
                src_type: String::new(),
                docstring: String::new(),
                alias: None,
                default_value: None,
                default_expr: None,
                min: None,
                max: None,
                one_of: None,
                env_var: None,
                flag_transient: false,
                flag_disable_import: false,
                flag_disable_export: false,
                flag_hidden: false,
            };
        std::mem::swap(&mut cur, desc);
        match apply_legacy_item(cur, m) {
            Ok(next) => {
                *desc = next;
            },
            Err((back, e)) => {
                *desc = back;
                return Err(e);
            },
        }
        proof {
            done = done + 1;
        }
    }
    Ok(true)
}

/// A field of the type that the older derive reads.
#[derive(Debug)]
pub struct LegacyField {
    /// The field's name; `None` for a field of a tuple struct.
    pub ident: Option<String>,
    pub ty: String,
    pub vis: String,
    pub attrs: Vec<LegacyAttr>,
}

/// A field without configuration attributes.
#[derive(Debug)]
pub struct InvisibleFieldDesc {
    pub identifier: String,
    pub src_type: String,
    pub default_expr: Option<String>,
    pub default_tokens: Option<String>,
}

/// What the older derive reads from a type.
#[derive(Debug)]
pub struct TypeDesc {
    pub type_visibility: String,
    pub identifier: String,
    pub generics: String,
    pub fields: Vec<FieldDesc>,
    pub invisibles: Vec<InvisibleFieldDesc>,
}

/// The type that the older derive reads: its name, visibility and generics as source
/// text, and its fields, `None` where it is no struct.
#[derive(Debug)]
pub struct LegacyInput {
    pub vis: String,
    pub ident: String,
    pub generics: String,
    pub fields: Option<Vec<LegacyField>>,
}

/// A description of the field `name` of type `ty` before its attributes are read.
pub open spec fn blank_desc(vis: String, name: String, ty: String) -> FieldDesc {
    FieldDesc {
        visibility: vis,
        identifier: name,
        src_type: ty,
        docstring: choose|s: String| s@.len() == 0,
        alias: None,
        default_value: None,
        default_expr: None,
        min: None,
        max: None,
        one_of: None,
        env_var: None,
        flag_transient: false,
        flag_disable_import: false,
        flag_disable_export: false,
        flag_hidden: false,
    }
}

/// Reading the attributes `attrs` in order into the description `d` with doc string
/// `doc`: the description, the doc string, and whether some attribute is a
/// configuration attribute, or the first error.
pub open spec fn legacy_attrs(d: FieldDesc, doc: Seq<char>, any: bool, attrs: Seq<LegacyAttr>) -> (
    FieldDesc,
    Seq<char>,
    Result<bool, LegacyError>,
)
    decreases attrs.len(),
{
    if attrs.len() == 0 {
        (d, doc, Ok(any))
    } else {
        let (d2, r) = legacy_attr(d, attrs[0]);
        let doc2 = legacy_doc(doc, attrs[0]);
        match r {
            Err(e) => (d2, doc2, Err(e)),
            Ok(b) => legacy_attrs(d2, doc2, any || b, attrs.drop_first()),
        }
    }
}

/// The exec description `x` is the spec description `d` with the doc string `doc`.
pub open spec fn desc_is(x: FieldDesc, d: FieldDesc, doc: Seq<char>) -> bool {
    &&& (FieldDesc { docstring: x.docstring, ..d }) == x
    &&& x.docstring@ == doc
}

/// How a field reads: as a configured field, as a plain field, or the error it raises.
pub open spec fn field_reads(f: LegacyField, configured: Option<FieldDesc>, plain: Option<InvisibleFieldDesc>, err: Option<LegacyError>) -> bool {
    match f.ident {
        None => err == Some(LegacyError::MissingIdentifier),
        Some(name) => {
            let (d, doc, r) = legacy_attrs(blank_desc(f.vis, name, f.ty), seq![], false, f.attrs@);
            match r {
                Err(e) => err == Some(e),
                Ok(true) => {
                    &&& err is None
                    &&& plain is None
                    &&& configured is Some
                    &&& desc_is(configured->Some_0, d, doc)
                },
                Ok(false) => err is None && configured is None && plain == Some(
                    InvisibleFieldDesc { identifier: name, src_type: f.ty, default_expr: None, default_tokens: None },
                ),
            }
        },
    }
}

/// Reads one field.
fn read_field(f: LegacyField) -> (r: Result<(Option<FieldDesc>, Option<InvisibleFieldDesc>), LegacyError>)
    ensures
        match r {
            Ok((c, p)) => field_reads(f, c, p, None),
            Err(e) => field_reads(f, None, None, Some(e)),
        },
{
    let LegacyField { ident, ty, vis, attrs } = f;
    let name = match ident {
        Some(n) => n,
        None => return Err(LegacyError::MissingIdentifier),
    };
    let ghost spec_start = blank_desc(vis, name, ty);
    let ghost fname = name;
    let mut desc = FieldDesc {
        visibility: vis,
        identifier: name,
        src_type: ty,
        docstring: String::new(),
        alias: None,
        default_value: None,
        default_expr: None,
        min: None,
        max: None,
        one_of: None,
        env_var: None,
        flag_transient: false,
        flag_disable_import: false,
        flag_disable_export: false,
        flag_hidden: false,
    };
    let ghost orig = attrs@;
    let ghost whole = legacy_attrs(spec_start, seq![], false, orig);
    proof {
        assert(desc_is(desc, spec_start, seq![]));
        assert(orig.subrange(0, orig.len() as int) =~= orig);
    }
    let mut any = false;
    let mut rest = attrs;
    let ghost mut spec_d = spec_start;
    let ghost mut done: int = 0;
    while rest.len() > 0
        invariant
            f.ident == Some(fname),
            spec_start == blank_desc(f.vis, fname, f.ty),
            orig == f.attrs@,
            whole == legacy_attrs(spec_start, seq![], false, orig),
            0 <= done <= orig.len(),
            rest@ == orig.subrange(done, orig.len() as int),
            desc_is(desc, spec_d, desc.docstring@),
            desc.identifier == fname,
            desc.src_type == f.ty,
            whole == legacy_attrs(spec_d, desc.docstring@, any, rest@),
        decreases rest@.len(),
    {
        let a = rest.remove(0);
        proof {
            assert(orig.subrange(done, orig.len() as int).drop_first() =~= rest@);
        }
        let ghost before = desc;
        let ghost a_copy = a;
        let r = decompose_attribute(&mut desc, a);
        proof {
            let (d2, _) = legacy_attr(spec_d, a_copy);
            assert(legacy_attr(spec_d, a_copy).0 == FieldDesc { docstring: spec_d.docstring, ..legacy_attr(before, a_copy).0 }
                && legacy_attr(spec_d, a_copy).1 == legacy_attr(before, a_copy).1) by {
                assert(spec_d == FieldDesc { docstring: spec_d.docstring, ..before });
                if a_copy.path@ == "config_it"@ {
                    match a_copy.meta {
                        ParsedMeta::List(items) => {
                            lemma_items_ignore_doc(spec_d, before, items@);
                        },
                        _ => {},
                    }
                }
            }
            if a_copy.path@ == "config_it"@ {
                match a_copy.meta {
                    ParsedMeta::List(items) => {
                        lemma_items_keep(before, items@);
                    },
                    _ => {},
                }
            }
            spec_d = d2;
        }
        match r {
            Err(e) => {
                return Err(e);
            },
            Ok(b) => {
                any = any || b;
            },
        }
        proof {
            done = done + 1;
        }
    }
    if any {
        Ok((Some(desc), None))
    } else {
        Ok((None, Some(InvisibleFieldDesc { identifier: desc.identifier, src_type: desc.src_type, default_expr: None, default_tokens: None })))
    }
}

/// Items of `config_it` keep a field's name and type.
proof fn lemma_items_keep(d: FieldDesc, ms: Seq<NestedMeta>)
    ensures
        legacy_items(d, ms).0.identifier == d.identifier,
        legacy_items(d, ms).0.src_type == d.src_type,
    decreases ms.len(),
{
    if ms.len() > 0 {
        match legacy_item(d, ms[0]) {
            Ok(d2) => {
                lemma_items_keep(d2, ms.drop_first());
            },
            _ => {},
        }
    }
}

/// Items of `config_it` act on descriptions alike whatever their doc strings.
proof fn lemma_items_ignore_doc(a: FieldDesc, b: FieldDesc, ms: Seq<NestedMeta>)
    requires
        (a == FieldDesc { docstring: a.docstring, ..b }),
    ensures
        legacy_items(a, ms).1 == legacy_items(b, ms).1,
        (legacy_items(a, ms).0 == FieldDesc { docstring: a.docstring, ..legacy_items(b, ms).0 }),
    decreases ms.len(),
{
    if ms.len() > 0 {
        match (legacy_item(a, ms[0]), legacy_item(b, ms[0])) {
            (Ok(a2), Ok(b2)) => {
                lemma_items_ignore_doc(a2, b2, ms.drop_first());
            },
            _ => {},
        }
    }
}

/// The fields `fs` read in order without error into the configured fields `configured`
/// and the plain fields `plain`, each in order.
pub open spec fn fields_read(fs: Seq<LegacyField>, configured: Seq<FieldDesc>, plain: Seq<InvisibleFieldDesc>) -> bool
    decreases fs.len(),
{
    if fs.len() == 0 {
        configured.len() == 0 && plain.len() == 0
    } else {
        ||| (configured.len() > 0 && field_reads(fs.last(), Some(configured.last()), None, None) && fields_read(
            fs.drop_last(),
            configured.drop_last(),
            plain,
        ))
        ||| (plain.len() > 0 && field_reads(fs.last(), None, Some(plain.last()), None) && fields_read(
            fs.drop_last(),
            configured,
            plain.drop_last(),
        ))
    }
}

/// The fields before position `k` read without error, and the field at `k` raises `e`.
pub open spec fn fails_at(fs: Seq<LegacyField>, k: int, e: LegacyError) -> bool {
    &&& 0 <= k < fs.len()
    &&& exists|c: Seq<FieldDesc>, p: Seq<InvisibleFieldDesc>| #[trigger] fields_read(fs.take(k), c, p)
    &&& field_reads(fs[k], None, None, Some(e))
}

/// Reads a type in the older grammar: refused where it is no struct; else every field in
/// order, stopping at the first error. Fields with a configuration attribute are
/// described, the others listed as plain fields.
pub fn decompose_input(input: LegacyInput) -> (r: Result<TypeDesc, LegacyError>)
    ensures
        match input.fields {
            None => r == Err::<TypeDesc, LegacyError>(LegacyError::NonStruct),
            Some(fs) => match r {
                Ok(t) => {
                    &&& t.type_visibility == input.vis
                    &&& t.identifier == input.ident
                    &&& t.generics == input.generics
                    &&& fields_read(fs@, t.fields@, t.invisibles@)
                },
                Err(e) => exists|k: int| fails_at(fs@, k, e),
            },
        },
{
    let LegacyInput { vis, ident, generics, fields } = input;
    let fields = match fields {
        None => return Err(LegacyError::NonStruct),
        Some(fs) => fs,
    };
    let ghost orig = fields@;
    let mut rest = fields;
    let mut configured: Vec<FieldDesc> = Vec::new();
    let mut plain: Vec<InvisibleFieldDesc> = Vec::new();
    let ghost mut done: int = 0;
    proof {
        assert(orig.take(0) =~= Seq::<LegacyField>::empty());
        assert(orig.subrange(0, orig.len() as int) =~= orig);
    }
    while rest.len() > 0
        invariant
            input.fields is Some,
            input.fields->Some_0@ == orig,
            vis == input.vis,
            ident == input.ident,
            generics == input.generics,
            0 <= done <= orig.len(),
            rest@ == orig.subrange(done, orig.len() as int),
            fields_read(orig.take(done), configured@, plain@),
        decreases rest@.len(),
    {
        let f = rest.remove(0);
        proof {
            assert(orig[done] == f);
            assert(orig.take(done + 1).drop_last() =~= orig.take(done));
            assert(orig.take(done + 1).last() == f);
        }
        match read_field(f) {
            Err(e) => {
                proof {
                    assert(fields_read(orig.take(done), configured@, plain@));
                    assert(fails_at(orig, done, e));
                }
                return Err(e);
            },
            Ok((c, p)) => {
                match c {
                    Some(d) => {
                        let ghost before = configured@;
                        configured.push(d);
                        proof {
                            assert(configured@.drop_last() =~= before);
                        }
                    },
                    None => {},
                }
                match p {
                    Some(x) => {
                        let ghost before = plain@;
                        plain.push(x);
                        proof {
                            assert(plain@.drop_last() =~= before);
                        }
                    },
                    None => {},
                }
            },
        }
        proof {
            done = done + 1;
            assert(rest@ =~= orig.subrange(done, orig.len() as int));
        }
    }
    proof {
        assert(orig.take(done) =~= orig);
    }
    Ok(TypeDesc { type_visibility: vis, identifier: ident, generics, fields: configured, invisibles: plain })
}

/* ------------------------------------------------------------------------------------------ */
/*                              What the older derive generates                               */
/* ------------------------------------------------------------------------------------------ */

/// How the default of a property is made by the older derive.
#[derive(Debug)]
pub enum LegacyDefault {
    /// `(<literal>).try_into().unwrap()`, for `default = <literal>`: the literal's text.
    Value(String),
    /// The expression that the string literal of `default_expr` holds.
    Expr(String),
    /// `Default::default()`.
    Trait,
}

/// What the older derive generates for one configured field: its metadata and how its
/// default is made.
#[derive(Debug)]
pub struct PropPlan {
    /// The property's index, its position among the configured fields.
    pub index: usize,
    /// The field's name.
    pub ident: String,
    /// The property's name in archives: the alias, where one is given as a string literal.
    pub name: String,
    pub src_type: String,
    pub doc: String,
    pub default: LegacyDefault,
    /// Lower limit, as source text.
    pub min: Option<String>,
    /// Upper limit, as source text.
    pub max: Option<String>,
    /// Allowed values: the source text of the `one_of(...)` list.
    pub one_of: Option<String>,
    /// The environment variable that the default is read from, as source text.
    pub env: Option<String>,
    pub disable_import: bool,
    pub disable_export: bool,
    pub hidden: bool,
}

/// The value of a string literal written without escapes, from its source text: what
/// stands between its quotes. `None` for any other text.
pub open spec fn plain_str_value(text: Seq<char>) -> Option<Seq<char>> {
    if text.len() >= 2 && text[0] == '"' && text[text.len() - 1] == '"' && forall|i: int|
        1 <= i < text.len() - 1 ==> #[trigger] text[i] != '\\' && text[i] != '"' {
        Some(text.subrange(1, text.len() - 1))
    } else {
        None
    }
}

/// The name of a configured field in archives: its alias, where the alias is a string
/// literal; else the field's name.
pub open spec fn prop_name(d: FieldDesc) -> Seq<char> {
    match d.alias {
        Some(a) => match plain_str_value(a@) {
            Some(v) => v,
            None => d.identifier@,
        },
        None => d.identifier@,
    }
}

/// Whether `init` is how the default of the configured field `d` is made: `default`
/// first, then the string of `default_expr`, then `Default::default()`.
pub open spec fn legacy_default_of(d: FieldDesc, init: LegacyDefault) -> bool {
    match d.default_value {
        Some(v) => init == LegacyDefault::Value(v),
        None => match d.default_expr {
            Some(e) => match plain_str_value(e@) {
                Some(x) => init is Expr && init->Expr_0@ == x,
                None => init is Trait,
            },
            None => init is Trait,
        },
    }
}

/// The plan for the configured field `d` at position `i`.
pub open spec fn prop_plan_of(d: FieldDesc, i: int, p: PropPlan) -> bool {
    &&& p.index == i
    &&& p.ident == d.identifier
    &&& p.name@ == prop_name(d)
    &&& p.src_type == d.src_type
    &&& p.doc == d.docstring
    &&& legacy_default_of(d, p.default)
    &&& p.min == d.min
    &&& p.max == d.max
    &&& p.one_of == d.one_of
    &&& p.env == d.env_var
    &&& p.disable_import == d.flag_disable_import
    &&& p.disable_export == d.flag_disable_export
    &&& p.hidden == d.flag_hidden
}

/// The value of a string literal written without escapes; see [`plain_str_value`].
fn str_literal_value(text: &str) -> (r: Option<String>)
    ensures
        match (r, plain_str_value(text@)) {
            (Some(a), Some(b)) => a@ == b,
            (None, None) => true,
            _ => false,
        },
{
    let n = text.unicode_len();
    if n < 2 {
        return None;
    }
    if text.get_char(0) != '"' || text.get_char(n - 1) != '"' {
        return None;
    }
    let mut i: usize = 1;
    while i < n - 1
        invariant
            n == text@.len(),
            n >= 2,
            1 <= i <= n - 1,
            text@[0] == '"',
            text@[n - 1] == '"',
            forall|k: int| 1 <= k < i ==> #[trigger] text@[k] != '\\' && text@[k] != '"',
        decreases n - 1 - i,
    {
        let c = text.get_char(i);
        if c == '\\' || c == '"' {
            return None;
        }
        i = i + 1;
    }
    Some(text.substring_char(1, n - 1).to_string())
}

/// A copy of an optional text.
fn copy_text(o: &Option<String>) -> (r: Option<String>)
    ensures
        r == *o,
{
    match o {
        Some(x) => Some(x.clone()),
        None => None,
    }
}

/// What the older derive generates for each configured field of `ty`, in order: the
/// property at position `i` gets index `i`, the alias (where it is a string literal) or
/// else the field's name, the field's limits, allowed values, environment variable and
/// flags, and its default as [`legacy_default_of`] says.
pub fn generation_plan(ty: &TypeDesc) -> (r: Vec<PropPlan>)
    ensures
        r@.len() == ty.fields@.len(),
        forall|i: int| 0 <= i < r@.len() ==> prop_plan_of(ty.fields@[i], i, #[trigger] r@[i]),
{
    let mut r: Vec<PropPlan> = Vec::new();
    let mut i: usize = 0;
    while i < ty.fields.len()
        invariant
            i <= ty.fields@.len(),
            r@.len() == i,
            forall|k: int| 0 <= k < i ==> prop_plan_of(ty.fields@[k], k, #[trigger] r@[k]),
        decreases ty.fields@.len() - i,
    {
        let d = &ty.fields[i];
        let name = match &d.alias {
            Some(a) => match str_literal_value(a.as_str()) {
                Some(v) => v,
                None => d.identifier.clone(),
            },
            None => d.identifier.clone(),
        };
        let default = match &d.default_value {
            Some(v) => LegacyDefault::Value(v.clone()),
            None => match &d.default_expr {
                Some(e) => match str_literal_value(e.as_str()) {
                    Some(x) => LegacyDefault::Expr(x),
                    None => LegacyDefault::Trait,
                },
                None => LegacyDefault::Trait,
            },
        };
        let p = PropPlan {
            index: i,
            ident: d.identifier.clone(),
            name,
            src_type: d.src_type.clone(),
            doc: d.docstring.clone(),
            default,
            min: copy_text(&d.min),
            max: copy_text(&d.max),
            one_of: copy_text(&d.one_of),
            env: copy_text(&d.env_var),
            disable_import: d.flag_disable_import,
            disable_export: d.flag_disable_export,
            hidden: d.flag_hidden,
        };
        r.push(p);
        i = i + 1;
    }
    r
}

/* ------------------------------------------------------------------------------------------ */
/*                                   The derive's namespace                                   */
/* ------------------------------------------------------------------------------------------ */

/// A token inside `#[derive(...)]`.
#[derive(Debug, PartialEq, Eq)]
pub enum Token {
    Ident(String),
    Punct(char),
    /// Any other token.
    Other,
}

impl Token {
    /// A copy of this token.
    pub fn duplicate(&self) -> (r: Token)
        ensures
            r == *self,
    {
        match self {
            Token::Ident(s) => Token::Ident(s.clone()),
            Token::Punct(c) => Token::Punct(*c),
            Token::Other => Token::Other,
        }
    }
}

/// Whether the token is the identifier `Template`.
pub open spec fn is_template(t: Token) -> bool {
    match t {
        Token::Ident(s) => s@ == "Template"@,
        _ => false,
    }
}

/// Whether the token is a `:` or a `,`.
pub open spec fn is_separator(t: Token) -> bool {
    t == Token::Punct(':') || t == Token::Punct(',')
}

/// The position of the first `Template`.
pub open spec fn first_template(ts: Seq<Token>) -> Option<int> {
    if exists|p: int|
        0 <= p < ts.len() && is_template(#[trigger] ts[p]) && forall|q: int| 0 <= q < p ==> !is_template(#[trigger] ts[q]) {
        Some(
            choose|p: int|
                0 <= p < ts.len() && is_template(#[trigger] ts[p]) && forall|q: int| 0 <= q < p ==> !is_template(#[trigger] ts[q]),
        )
    } else {
        None
    }
}

/// The position of the last token before `p` that `pick` accepts.
pub open spec fn last_before(ts: Seq<Token>, p: int, pick: spec_fn(Token) -> bool) -> Option<int> {
    if exists|q: int| 0 <= q < p && pick(#[trigger] ts[q]) && forall|x: int| q < x < p ==> !pick(#[trigger] ts[x]) {
        Some(choose|q: int| 0 <= q < p && pick(#[trigger] ts[q]) && forall|x: int| q < x < p ==> !pick(#[trigger] ts[x]))
    } else {
        None
    }
}

/// Whether the token is a `,`.
pub open spec fn is_comma(t: Token) -> bool {
    t == Token::Punct(',')
}

/// The namespace that the tokens of the derive lists give `Template`: the token that
/// starts the path of the first `Template`, where `Template` is written with a path;
/// `None` where it is not, or not derived at all.
pub open spec fn spec_namespace(ts: Seq<Token>) -> Option<Token> {
    match first_template(ts) {
        None => None,
        Some(p) => match last_before(ts, p, |t: Token| is_separator(t)) {
            None => None,
            Some(q) => if ts[q] == Token::Punct(',') {
                None
            } else {
                match last_before(ts, p, |t: Token| is_comma(t)) {
                    Some(c) => Some(ts[c + 1]),
                    None => Some(ts[0]),
                }
            },
        },
    }
}

/// The position of the first `Template`.
fn find_template(tokens: &Vec<Token>) -> (r: Option<usize>)
    ensures
        match (r, first_template(tokens@)) {
            (Some(a), Some(b)) => a == b,
            (None, None) => true,
            _ => false,
        },
{
    proof {
        reveal_strlit("Template");
    }
    let mut pos: usize = 0;
    while pos < tokens.len()
        invariant
            pos <= tokens@.len(),
            forall|q: int| 0 <= q < pos ==> !is_template(#[trigger] tokens@[q]),
        decreases tokens@.len() - pos,
    {
        let hit = match &tokens[pos] {
            Token::Ident(s) => crate::text::str_eq(s.as_str(), "Template"),
            _ => false,
        };
        if hit {
            proof {
                let p = choose|p: int|
                    0 <= p < tokens@.len() && is_template(#[trigger] tokens@[p]) && forall|q: int|
                        0 <= q < p ==> !is_template(#[trigger] tokens@[q]);
                if p > pos {
                    assert(!is_template(tokens@[pos as int]));
                }
            }
            return Some(pos);
        }
        pos = pos + 1;
    }
    None
}

/// The position of the last token before `p` that `pick` accepts; `pick` is `,` alone or
/// both `:` and `,` as `commas_only` says.
fn find_last_before(tokens: &Vec<Token>, p: usize, commas_only: bool) -> (r: Option<usize>)
    requires
        p <= tokens@.len(),
    ensures
        ({
            let pick = if commas_only {
                |t: Token| is_comma(t)
            } else {
                |t: Token| is_separator(t)
            };
            match (r, last_before(tokens@, p as int, pick)) {
                (Some(a), Some(b)) => a == b,
                (None, None) => true,
                _ => false,
            }
        }),
{
    let ghost pick = if commas_only {
        |t: Token| is_comma(t)
    } else {
        |t: Token| is_separator(t)
    };
    let mut k: usize = p;
    while k > 0
        invariant
            k <= p,
            p <= tokens@.len(),
            pick == (if commas_only {
                |t: Token| is_comma(t)
            } else {
                |t: Token| is_separator(t)
            }),
            forall|x: int| k <= x < p ==> !pick(#[trigger] tokens@[x]),
        decreases k,
    {
        k = k - 1;
        let hit = match tokens[k] {
            Token::Punct(c) => c == ',' || (!commas_only && c == ':'),
            _ => false,
        };
        if hit {
            proof {
                assert(pick(tokens@[k as int]));
                let q = choose|q: int| 0 <= q < p && pick(#[trigger] tokens@[q]) && forall|x: int| q < x < p ==> !pick(#[trigger] tokens@[x]);
                if q < k {
                    assert(!pick(tokens@[k as int]));
                }
            }
            return Some(k);
        }
    }
    None
}

/// Finds the namespace of the derive, from the tokens of all derive lists in order.
pub fn retrieve_namespace(tokens: &Vec<Token>) -> (r: Option<Token>)
    ensures
        r == spec_namespace(tokens@),
{
    let pos = match find_template(tokens) {
        None => return None,
        Some(p) => p,
    };
    let q = match find_last_before(tokens, pos, false) {
        None => return None,
        Some(q) => q,
    };
    let comma_at_q = match tokens[q] {
        Token::Punct(c) => c == ',',
        _ => false,
    };
    if comma_at_q {
        return None;
    }
    match find_last_before(tokens, pos, true) {
        Some(c) => Some(tokens[c + 1].duplicate()),
        None => Some(tokens[0].duplicate()),
    }
}

} // verus!
