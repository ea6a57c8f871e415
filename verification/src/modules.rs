//! Modules: a program in several files becomes one list of statements. The
//! names that a module declares are made unique, and every reference to them
//! is renamed with them.
use crate::expression::{
    AnnotatedExpr, AssignExpr, Ast, BinaryExpr, CallExpr, ConditionalExpr, ExprRef, Expression, FieldAccessExpr,
    ForLoopExpr, FunctionExpr, ImportKind, ImportKindView, IndexExpr, IsPatternExpr, MatchArm, MatchArmView,
    MatchExpr, Node, RangeExpr, SliceExpr, UnaryExpr, VariantDecl, VariantDeclView, annotated_expr_view,
    assign_expr_view, binary_expr_view, call_expr_view, conditional_expr_view, field_access_expr_view,
    for_loop_expr_view, function_expr_view, identifier_of, index_expr_view, is_pattern_expr_view, match_arm_view,
    match_arm_views, match_arm_views_index, match_expr_view, node, nodes, nodes_index, nodes_push, opt_node,
    range_expr_view, slice_expr_view, unary_expr_view, variant_decl_view, variant_decl_views,
    variant_decl_views_index,
};
use crate::rename::{
    Pairs, Renames, RenamesView, alias_views, becomes, empty_renames, find_members, find_name, members_of, pair_views,
    rename_node, renaming_nothing_changes_nothing, reversed, rewrite_node,
};
use crate::parser::{Fail, ParseError, Parser, fail_view, fail_views, parse_message, parsed};
use crate::text::{NameSet, decimal, decimal_of, digit_char, owned, same_text, texts};
use crate::tokens::{Spanned, shown_position};
use vstd::prelude::*;
use vstd::string::StringExecFns;

verus! {


// ── Errors ───────────────────────────────────────────────────────────────

/// Why modules cannot be put together.
#[derive(Debug)]
pub enum ModuleError {
    Io { path: String, message: String },
    Parse { path: String, errors: Vec<Spanned<ParseError>> },
    Cycle { chain: Vec<String> },
    UnknownExport { path: String, name: String },
    NameConflict { path: String, name: String },
    DuplicateImportBinding { path: String, name: String },
    /// An `import` that does not stand at the top of a file.
    ImportNotAtTopLevel { path: String },
    /// An `import` with an annotation on it.
    AnnotatedImport { path: String },
}

/// Why modules cannot be put together, as a mathematical value.
pub ghost enum Mishap {
    Io(Seq<char>, Seq<char>),
    Parse(Seq<char>, Seq<Fail>),
    Cycle(Seq<Seq<char>>),
    UnknownExport(Seq<char>, Seq<char>),
    NameConflict(Seq<char>, Seq<char>),
    DuplicateImportBinding(Seq<char>, Seq<char>),
    ImportNotAtTopLevel(Seq<char>),
    AnnotatedImport(Seq<char>),
}

impl View for ModuleError {
    type V = Mishap;

    open spec fn view(&self) -> Mishap {
        match *self {
            ModuleError::Io { path, message } => Mishap::Io(path@, message@),
            ModuleError::Parse { path, errors } => Mishap::Parse(path@, fail_views(errors@)),
            ModuleError::Cycle { chain } => Mishap::Cycle(texts(chain@)),
            ModuleError::UnknownExport { path, name } => Mishap::UnknownExport(path@, name@),
            ModuleError::NameConflict { path, name } => Mishap::NameConflict(path@, name@),
            ModuleError::DuplicateImportBinding { path, name } => Mishap::DuplicateImportBinding(path@, name@),
            ModuleError::ImportNotAtTopLevel { path } => Mishap::ImportNotAtTopLevel(path@),
            ModuleError::AnnotatedImport { path } => Mishap::AnnotatedImport(path@),
        }
    }
}

/// The lines for errors in a file, each error once.
pub open spec fn error_lines(es: Seq<Fail>) -> Seq<char>
    decreases es.len(),
{
    if es.len() == 0 {
        Seq::empty()
    } else if es.drop_last().contains(es.last()) {
        error_lines(es.drop_last())
    } else {
        error_lines(es.drop_last()) + "\n  "@ + shown_position(es.last().span.start) + ": "@ + parse_message(
            es.last().item,
        )
    }
}

/// Paths with arrows between them.
pub open spec fn arrows(ps: Seq<Seq<char>>) -> Seq<char>
    decreases ps.len(),
{
    if ps.len() == 0 {
        Seq::empty()
    } else if ps.len() == 1 {
        ps.last()
    } else {
        arrows(ps.drop_last()) + " -> "@ + ps.last()
    }
}

/// What is said to the user of an error.
pub open spec fn module_message(e: Mishap) -> Seq<char> {
    match e {
        Mishap::Io(path, message) => "could not read module '"@ + path + "': "@ + message,
        Mishap::Parse(path, es) => "parse error(s) in module '"@ + path + "':"@ + error_lines(es),
        Mishap::Cycle(chain) => "import cycle detected: "@ + arrows(chain),
        Mishap::UnknownExport(path, name) => "module '"@ + path + "' has no top-level name '"@ + name + "' to import"@,
        Mishap::NameConflict(path, name) => "'"@ + name + "' is both imported and declared at the top level of module '"@
            + path + "'"@,
        Mishap::DuplicateImportBinding(path, name) => "'"@ + name + "' is imported more than once in module '"@ + path
            + "'"@,
        Mishap::ImportNotAtTopLevel(path) => "'import' is only allowed at the top level of a file (module '"@ + path
            + "')"@,
        Mishap::AnnotatedImport(path) => "annotations are not supported on 'import' (module '"@ + path + "')"@,
    }
}

/// Whether two errors are the same at the same place.
fn same_fail(a: &Spanned<ParseError>, b: &Spanned<ParseError>) -> (r: bool)
    ensures
        r == (fail_view(*a) == fail_view(*b)),
{
    if a.span != b.span {
        return false;
    }
    match (&a.item, &b.item) {
        (ParseError::ExpectedButFound(x, y), ParseError::ExpectedButFound(z, w)) => x.same(z) && y.same(w),
        (ParseError::ExpectedExpression, ParseError::ExpectedExpression) => true,
        (ParseError::ExpectedOperator, ParseError::ExpectedOperator) => true,
        (ParseError::ExpectedIdentifier, ParseError::ExpectedIdentifier) => true,
        (ParseError::LexError(x), ParseError::LexError(y)) => *x == *y,
        (ParseError::FunctionTypeNeedsParens, ParseError::FunctionTypeNeedsParens) => true,
        (ParseError::InvalidAssignmentTarget, ParseError::InvalidAssignmentTarget) => true,
        (ParseError::Other(x), ParseError::Other(y)) => same_text(x.as_str(), y.as_str()),
        _ => false,
    }
}

fn seen_before(es: &Vec<Spanned<ParseError>>, n: usize) -> (r: bool)
    requires
        n < es.len(),
    ensures
        r == fail_views(es@).take(n as int).contains(fail_views(es@)[n as int]),
{
    let ghost v = fail_views(es@);
    let mut k: usize = 0;
    while k < n
        invariant
            k <= n < es.len() == v.len(),
            v == fail_views(es@),
            forall|j: int| 0 <= j < k ==> v[j] != v[n as int],
        decreases n - k,
    {
        assert(v[k as int] == fail_view(es@[k as int]));
        assert(v[n as int] == fail_view(es@[n as int]));
        if same_fail(&es[k], &es[n]) {
            assert(v.take(n as int)[k as int] == v[n as int]);
            return true;
        }
        k = k + 1;
    }
    assert(!v.take(n as int).contains(v[n as int])) by {
        if v.take(n as int).contains(v[n as int]) {
            let j = choose|j: int| 0 <= j < n && v.take(n as int)[j] == v[n as int];
            assert(v[j] == v[n as int]);
        }
    }
    false
}

fn push_error_lines(out: &mut String, es: &Vec<Spanned<ParseError>>)
    ensures
        final(out)@ == old(out)@ + error_lines(fail_views(es@)),
{
    let ghost before = out@;
    let ghost v = fail_views(es@);
    let mut i: usize = 0;
    assert(out@ =~= before + error_lines(v.take(0)));
    while i < es.len()
        invariant
            i <= es.len() == v.len(),
            v == fail_views(es@),
            out@ == before + error_lines(v.take(i as int)),
        decreases es.len() - i,
    {
        let seen = seen_before(es, i);
        assert(v.take(i + 1).drop_last() =~= v.take(i as int));
        assert(v.take(i + 1).last() == v[i as int]);
        assert(v[i as int] == fail_view(es@[i as int]));
        if !seen {
            let place = es[i].span.start.show();
            let message = es[i].item.message();
            out.append("\n  ");
            out.append(place.as_str());
            out.append(": ");
            out.append(message.as_str());
        }
        assert(out@ =~= before + error_lines(v.take(i + 1)));
        i = i + 1;
    }
    assert(v.take(i as int) =~= v);
}

fn push_arrows(out: &mut String, ps: &Vec<String>)
    ensures
        final(out)@ == old(out)@ + arrows(texts(ps@)),
{
    let ghost before = out@;
    let ghost v = texts(ps@);
    let mut i: usize = 0;
    assert(out@ =~= before + arrows(v.take(0)));
    while i < ps.len()
        invariant
            i <= ps.len() == v.len(),
            v == texts(ps@),
            out@ == before + arrows(v.take(i as int)),
        decreases ps.len() - i,
    {
        if i > 0 {
            out.append(" -> ");
        }
        out.append(ps[i].as_str());
        assert(v.take(i + 1).drop_last() =~= v.take(i as int));
        assert(v.take(i + 1).last() == ps@[i as int]@);
        assert(out@ =~= before + arrows(v.take(i + 1)));
        i = i + 1;
    }
    assert(v.take(i as int) =~= v);
}

impl ModuleError {
    /// What is said to the user.
    pub fn message(&self) -> (r: String)
        ensures
            r@ == module_message(self@),
    {
        let mut out = String::new();
        match self {
            ModuleError::Io { path, message } => {
                out.append("could not read module '");
                out.append(path.as_str());
                out.append("': ");
                out.append(message.as_str());
            },
            ModuleError::Parse { path, errors } => {
                out.append("parse error(s) in module '");
                out.append(path.as_str());
                out.append("':");
                push_error_lines(&mut out, errors);
            },
            ModuleError::Cycle { chain } => {
                out.append("import cycle detected: ");
                push_arrows(&mut out, chain);
            },
            ModuleError::UnknownExport { path, name } => {
                out.append("module '");
                out.append(path.as_str());
                out.append("' has no top-level name '");
                out.append(name.as_str());
                out.append("' to import");
            },
            ModuleError::NameConflict { path, name } => {
                out.append("'");
                out.append(name.as_str());
                out.append("' is both imported and declared at the top level of module '");
                out.append(path.as_str());
                out.append("'");
            },
            ModuleError::DuplicateImportBinding { path, name } => {
                out.append("'");
                out.append(name.as_str());
                out.append("' is imported more than once in module '");
                out.append(path.as_str());
                out.append("'");
            },
            ModuleError::ImportNotAtTopLevel { path } => {
                out.append("'import' is only allowed at the top level of a file (module '");
                out.append(path.as_str());
                out.append("')");
            },
            ModuleError::AnnotatedImport { path } => {
                out.append("annotations are not supported on 'import' (module '");
                out.append(path.as_str());
                out.append("')");
            },
        }
        assert(out@ =~= module_message(self@));
        out
    }
}

// ── Nested imports ───────────────────────────────────────────────────────

/// Whether an expression is an `import`, or holds one.
pub open spec fn has_import(a: Ast) -> bool
    decreases a,
{
    match a {
        Ast::Literal(_) => false,
        Ast::Return(x) => opt_has_import(x),
        Ast::Unary(x) => has_import(x.expr.item),
        Ast::Binary(x) => has_import(x.left.item) || has_import(x.right.item),
        Ast::Conditional(x) => has_import(x.cond.item) || has_import(x.true_branch.item) || opt_has_import(x.false_branch),
        Ast::Assign(x) => has_import(x.target.item) || has_import(x.value.item),
        Ast::Function(x) => has_import(x.body.item),
        Ast::Call(x) => has_import(x.callable.item) || any_has_import(x.args),
        Ast::Tuple(es) => any_has_import(es),
        Ast::Block(es) => any_has_import(es),
        Ast::Annotated(x) => has_import(x.expr.item),
        Ast::Index(x) => has_import(x.target.item) || has_import(x.index.item),
        Ast::Slice(x) => has_import(x.target.item) || opt_has_import(x.start) || opt_has_import(x.end),
        Ast::Range(x) => has_import(x.start.item) || has_import(x.end.item),
        Ast::ForLoop(x) => has_import(x.iterable.item) || opt_has_import(x.cond) || has_import(x.body.item),
        Ast::Comprehension(x) => has_import(x.item),
        Ast::DataDecl(_) => false,
        Ast::FieldAccess(x) => has_import(x.target.item),
        Ast::Import(_) => true,
        Ast::Match(x) => has_import(x.subject.item) || arms_have_import(x.arms) || opt_has_import(x.default),
        Ast::IsPattern(x) => has_import(x.subject.item),
        Ast::Try(x) => has_import(x.item),
        Ast::Unwrap(x) => has_import(x.item),
        Ast::Catch(value, handler) => has_import(value.item) || has_import(handler.item),
        Ast::MutArg(x) => has_import(x.item),
    }
}

pub open spec fn opt_has_import(n: Option<Box<Node>>) -> bool
    decreases n,
{
    match n {
        Some(x) => has_import(x.item),
        None => false,
    }
}

pub open spec fn any_has_import(ns: Seq<Node>) -> bool
    decreases ns,
{
    if ns.len() == 0 {
        false
    } else {
        any_has_import(ns.drop_last()) || has_import(ns.last().item)
    }
}

pub open spec fn arms_have_import(arms: Seq<MatchArmView>) -> bool
    decreases arms,
{
    if arms.len() == 0 {
        false
    } else {
        arms_have_import(arms.drop_last()) || opt_has_import(arms.last().guard) || has_import(arms.last().body.item)
    }
}

fn unary_finds_import(x: &UnaryExpr) -> (r: bool)
    ensures
        r == has_import(Ast::Unary(unary_expr_view(*x))),
    decreases x,
{
    finds_import(&x.expr.item)
}

fn binary_finds_import(x: &BinaryExpr) -> (r: bool)
    ensures
        r == has_import(Ast::Binary(binary_expr_view(*x))),
    decreases x,
{
    finds_import(&x.left.item) || finds_import(&x.right.item)
}

fn conditional_finds_import(x: &ConditionalExpr) -> (r: bool)
    ensures
        r == has_import(Ast::Conditional(conditional_expr_view(*x))),
    decreases x,
{
    finds_import(&x.cond.item) || finds_import(&x.true_branch.item) || opt_finds_import(&x.false_branch)
}

fn assign_finds_import(x: &AssignExpr) -> (r: bool)
    ensures
        r == has_import(Ast::Assign(assign_expr_view(*x))),
    decreases x,
{
    finds_import(&x.target.item) || finds_import(&x.value.item)
}

fn function_finds_import(x: &FunctionExpr) -> (r: bool)
    ensures
        r == has_import(Ast::Function(function_expr_view(*x))),
    decreases x,
{
    finds_import(&x.body.item)
}

fn call_finds_import(x: &CallExpr) -> (r: bool)
    ensures
        r == has_import(Ast::Call(call_expr_view(*x))),
    decreases x,
{
    finds_import(&x.callable.item) || any_finds_import(&x.args)
}

fn annotated_finds_import(x: &AnnotatedExpr) -> (r: bool)
    ensures
        r == has_import(Ast::Annotated(annotated_expr_view(*x))),
    decreases x,
{
    finds_import(&x.expr.item)
}

fn index_finds_import(x: &IndexExpr) -> (r: bool)
    ensures
        r == has_import(Ast::Index(index_expr_view(*x))),
    decreases x,
{
    finds_import(&x.target.item) || finds_import(&x.index.item)
}

fn slice_finds_import(x: &SliceExpr) -> (r: bool)
    ensures
        r == has_import(Ast::Slice(slice_expr_view(*x))),
    decreases x,
{
    finds_import(&x.target.item) || opt_finds_import(&x.start) || opt_finds_import(&x.end)
}

fn range_finds_import(x: &RangeExpr) -> (r: bool)
    ensures
        r == has_import(Ast::Range(range_expr_view(*x))),
    decreases x,
{
    finds_import(&x.start.item) || finds_import(&x.end.item)
}

fn for_loop_finds_import(x: &ForLoopExpr) -> (r: bool)
    ensures
        r == has_import(Ast::ForLoop(for_loop_expr_view(*x))),
    decreases x,
{
    finds_import(&x.iterable.item) || opt_finds_import(&x.cond) || finds_import(&x.body.item)
}

fn field_access_finds_import(x: &FieldAccessExpr) -> (r: bool)
    ensures
        r == has_import(Ast::FieldAccess(field_access_expr_view(*x))),
    decreases x,
{
    finds_import(&x.target.item)
}

fn match_finds_import(x: &MatchExpr) -> (r: bool)
    ensures
        r == has_import(Ast::Match(match_expr_view(*x))),
    decreases x,
{
    finds_import(&x.subject.item) || arms_find_import(&x.arms) || opt_finds_import(&x.default)
}

fn is_pattern_finds_import(x: &IsPatternExpr) -> (r: bool)
    ensures
        r == has_import(Ast::IsPattern(is_pattern_expr_view(*x))),
    decreases x,
{
    finds_import(&x.subject.item)
}

fn finds_import(e: &Expression) -> (r: bool)
    ensures
        r == has_import(e@),
    decreases e,
{
    match e {
        Expression::Literal(_) => false,
        Expression::Return(x) => opt_finds_import(x),
        Expression::Unary(x) => {
            assert(e.ast() == Ast::Unary(unary_expr_view(*x)));
            unary_finds_import(x)
        },
        Expression::Binary(x) => {
            assert(e.ast() == Ast::Binary(binary_expr_view(*x)));
            binary_finds_import(x)
        },
        Expression::Conditional(x) => {
            assert(e.ast() == Ast::Conditional(conditional_expr_view(*x)));
            conditional_finds_import(x)
        },
        Expression::Assign(x) => {
            assert(e.ast() == Ast::Assign(assign_expr_view(*x)));
            assign_finds_import(x)
        },
        Expression::Function(x) => {
            assert(e.ast() == Ast::Function(function_expr_view(*x)));
            function_finds_import(x)
        },
        Expression::Call(x) => {
            assert(e.ast() == Ast::Call(call_expr_view(*x)));
            call_finds_import(x)
        },
        Expression::Tuple(es) => any_finds_import(es),
        Expression::Block(es) => any_finds_import(es),
        Expression::Annotated(x) => {
            assert(e.ast() == Ast::Annotated(annotated_expr_view(*x)));
            annotated_finds_import(x)
        },
        Expression::Index(x) => {
            assert(e.ast() == Ast::Index(index_expr_view(*x)));
            index_finds_import(x)
        },
        Expression::Slice(x) => {
            assert(e.ast() == Ast::Slice(slice_expr_view(*x)));
            slice_finds_import(x)
        },
        Expression::Range(x) => {
            assert(e.ast() == Ast::Range(range_expr_view(*x)));
            range_finds_import(x)
        },
        Expression::ForLoop(x) => {
            assert(e.ast() == Ast::ForLoop(for_loop_expr_view(*x)));
            for_loop_finds_import(x)
        },
        Expression::Comprehension(x) => finds_import(&x.item),
        Expression::DataDecl(_) => false,
        Expression::FieldAccess(x) => {
            assert(e.ast() == Ast::FieldAccess(field_access_expr_view(*x)));
            field_access_finds_import(x)
        },
        Expression::Import(_) => true,
        Expression::Match(x) => {
            assert(e.ast() == Ast::Match(match_expr_view(*x)));
            match_finds_import(x)
        },
        Expression::IsPattern(x) => {
            assert(e.ast() == Ast::IsPattern(is_pattern_expr_view(*x)));
            is_pattern_finds_import(x)
        },
        Expression::Try(x) => finds_import(&x.item),
        Expression::Unwrap(x) => finds_import(&x.item),
        Expression::Catch { value, handler } => finds_import(&value.item) || finds_import(&handler.item),
        Expression::MutArg(x) => finds_import(&x.item),
    }
}

fn opt_finds_import(e: &Option<ExprRef>) -> (r: bool)
    ensures
        r == opt_has_import(opt_node(*e)),
    decreases e,
{
    match e {
        Some(x) => finds_import(&x.item),
        None => false,
    }
}

fn any_finds_import(es: &Vec<Spanned<Expression>>) -> (r: bool)
    ensures
        r == any_has_import(nodes(es@)),
    decreases es,
{
    let ghost v = nodes(es@);
    proof {
        nodes_index(es@);
    }
    let mut found = false;
    let mut i: usize = 0;
    while i < es.len()
        invariant
            i <= es.len() == v.len(),
            forall|k: int| 0 <= k < es.len() ==> #[trigger] v[k] == node(es@[k]),
            found == any_has_import(v.take(i as int)),
        decreases es.len() - i,
    {
        assert(v.take(i + 1).drop_last() =~= v.take(i as int));
        assert(v.take(i + 1).last() == v[i as int]);
        if finds_import(&es[i].item) {
            found = true;
        }
        i = i + 1;
    }
    assert(v.take(i as int) =~= v);
    found
}

fn arms_find_import(arms: &Vec<MatchArm>) -> (r: bool)
    ensures
        r == arms_have_import(match_arm_views(arms@)),
    decreases arms,
{
    let ghost v = match_arm_views(arms@);
    proof {
        match_arm_views_index(arms@);
    }
    let mut found = false;
    let mut i: usize = 0;
    while i < arms.len()
        invariant
            i <= arms.len() == v.len(),
            forall|k: int| 0 <= k < arms.len() ==> #[trigger] v[k] == match_arm_view(arms@[k]),
            found == arms_have_import(v.take(i as int)),
        decreases arms.len() - i,
    {
        assert(v.take(i + 1).drop_last() =~= v.take(i as int));
        assert(v.take(i + 1).last() == v[i as int]);
        if opt_finds_import(&arms[i].guard) || finds_import(&arms[i].body.item) {
            found = true;
        }
        i = i + 1;
    }
    assert(v.take(i as int) =~= v);
    found
}

/// Whether some statement that is no `import` itself holds one.
pub open spec fn nested_import(ns: Seq<Node>) -> bool
    decreases ns.len(),
{
    if ns.len() == 0 {
        false
    } else {
        nested_import(ns.drop_last()) || (!(ns.last().item is Import) && has_import(ns.last().item))
    }
}

/// `import` is only allowed at the top of a file.
pub fn check_no_nested_imports(stmts: &Vec<Spanned<Expression>>, path: &str) -> (r: Result<(), ModuleError>)
    ensures
        r is Err <==> nested_import(nodes(stmts@)),
        r matches Err(e) ==> e@ == Mishap::ImportNotAtTopLevel(path@),
{
    let ghost v = nodes(stmts@);
    proof {
        nodes_index(stmts@);
    }
    let mut found = false;
    let mut i: usize = 0;
    while i < stmts.len()
        invariant
            i <= stmts.len() == v.len(),
            forall|k: int| 0 <= k < stmts.len() ==> #[trigger] v[k] == node(stmts@[k]),
            found == nested_import(v.take(i as int)),
        decreases stmts.len() - i,
    {
        assert(v.take(i + 1).drop_last() =~= v.take(i as int));
        assert(v.take(i + 1).last() == v[i as int]);
        match &stmts[i].item {
            Expression::Import(_) => {},
            other => {
                if finds_import(other) {
                    found = true;
                }
            },
        }
        i = i + 1;
    }
    assert(v.take(i as int) =~= v);
    if found {
        Err(ModuleError::ImportNotAtTopLevel { path: owned(path) })
    } else {
        Ok(())
    }
}

// ── Names that a module declares ─────────────────────────────────────────

pub open spec fn variant_names(ds: Seq<VariantDeclView>) -> Seq<Seq<char>> {
    ds.map_values(|d: VariantDeclView| d.name)
}

/// The names that an expression declares in the scope it stands in. Blocks,
/// conditionals and loops have no scope of their own; the body of a function
/// has one, and the arguments of a call declare nothing.
pub open spec fn declared_in(a: Ast) -> Seq<Seq<char>>
    decreases a,
{
    match a {
        Ast::Assign(x) => match identifier_of(x.target.item) {
            Some(name) => seq![name] + declared_in(x.value.item),
            None => declared_in(x.value.item),
        },
        Ast::DataDecl(d) => seq![d.name] + variant_names(d.variants),
        Ast::Block(ns) => declared_by(ns),
        Ast::Tuple(ns) => declared_by(ns),
        Ast::Conditional(x) => declared_in(x.cond.item) + declared_in(x.true_branch.item) + opt_declared(
            x.false_branch,
        ),
        Ast::ForLoop(x) => declared_in(x.iterable.item) + opt_declared(x.cond) + declared_in(x.body.item),
        Ast::Comprehension(x) => declared_in(x.item),
        _ => Seq::empty(),
    }
}

pub open spec fn opt_declared(n: Option<Box<Node>>) -> Seq<Seq<char>>
    decreases n,
{
    match n {
        Some(x) => declared_in(x.item),
        None => Seq::empty(),
    }
}

/// The names that statements declare.
pub open spec fn declared_by(ns: Seq<Node>) -> Seq<Seq<char>>
    decreases ns,
{
    if ns.len() == 0 {
        Seq::empty()
    } else {
        declared_by(ns.drop_last()) + declared_in(ns.last().item)
    }
}

fn add_name(names: &mut Vec<String>, name: &str)
    ensures
        texts(final(names)@) == texts(old(names)@).push(name@),
{
    names.push(owned(name));
    assert(texts(names@) =~= texts(old(names)@).push(name@));
}

fn collect_variant_names(ds: &Vec<VariantDecl>, names: &mut Vec<String>)
    ensures
        texts(final(names)@) == texts(old(names)@) + variant_names(variant_decl_views(ds@)),
{
    let ghost before = texts(names@);
    let ghost v = variant_decl_views(ds@);
    proof {
        variant_decl_views_index(ds@);
    }
    let mut i: usize = 0;
    while i < ds.len()
        invariant
            i <= ds.len() == v.len(),
            forall|k: int| 0 <= k < ds.len() ==> #[trigger] v[k] == variant_decl_view(ds@[k]),
            texts(names@) =~= before + variant_names(v.take(i as int)),
        decreases ds.len() - i,
    {
        assert(v.take(i + 1) =~= v.take(i as int).push(v[i as int]));
        add_name(names, ds[i].name.as_str());
        i = i + 1;
    }
    assert(v.take(i as int) =~= v);
}

fn collect_names_in(e: &Expression, names: &mut Vec<String>)
    ensures
        texts(final(names)@) == texts(old(names)@) + declared_in(e@),
    decreases e,
{
    let ghost before = texts(names@);
    match e {
        Expression::Assign(x) => {
            assert(e.ast() == Ast::Assign(assign_expr_view(*x)));
            match x.target.item.get_identifier() {
                Some(name) => {
                    add_name(names, name);
                    collect_names_in(&x.value.item, names);
                    assert(texts(names@) =~= before + declared_in(e@));
                },
                None => collect_names_in(&x.value.item, names),
            }
        },
        Expression::DataDecl(d) => {
            add_name(names, d.name.as_str());
            collect_variant_names(&d.variants, names);
            assert(texts(names@) =~= before + declared_in(e@));
        },
        Expression::Block(es) => add_top_level_names(es, names),
        Expression::Tuple(es) => add_top_level_names(es, names),
        Expression::Conditional(x) => {
            assert(e.ast() == Ast::Conditional(conditional_expr_view(*x)));
            collect_names_in(&x.cond.item, names);
            collect_names_in(&x.true_branch.item, names);
            collect_opt_names(&x.false_branch, names);
            assert(texts(names@) =~= before + declared_in(e@));
        },
        Expression::ForLoop(x) => {
            assert(e.ast() == Ast::ForLoop(for_loop_expr_view(*x)));
            collect_names_in(&x.iterable.item, names);
            collect_opt_names(&x.cond, names);
            collect_names_in(&x.body.item, names);
            assert(texts(names@) =~= before + declared_in(e@));
        },
        Expression::Comprehension(x) => collect_names_in(&x.item, names),
        _ => {
            assert(texts(names@) =~= before + declared_in(e@));
        },
    }
}

fn collect_opt_names(e: &Option<ExprRef>, names: &mut Vec<String>)
    ensures
        texts(final(names)@) == texts(old(names)@) + opt_declared(opt_node(*e)),
    decreases e,
{
    match e {
        Some(x) => collect_names_in(&x.item, names),
        None => {
            assert(texts(names@) =~= texts(names@) + opt_declared(opt_node(*e)));
        },
    }
}

fn add_top_level_names(stmts: &Vec<Spanned<Expression>>, names: &mut Vec<String>)
    ensures
        texts(final(names)@) == texts(old(names)@) + declared_by(nodes(stmts@)),
    decreases stmts,
{
    let ghost before = texts(names@);
    let ghost v = nodes(stmts@);
    proof {
        nodes_index(stmts@);
    }
    let mut i: usize = 0;
    assert(texts(names@) =~= before + declared_by(v.take(0)));
    while i < stmts.len()
        invariant
            i <= stmts.len() == v.len(),
            forall|k: int| 0 <= k < stmts.len() ==> #[trigger] v[k] == node(stmts@[k]),
            texts(names@) == before + declared_by(v.take(i as int)),
        decreases stmts.len() - i,
    {
        assert(v.take(i + 1).drop_last() =~= v.take(i as int));
        assert(v.take(i + 1).last() == v[i as int]);
        collect_names_in(&stmts[i].item, names);
        assert(texts(names@) =~= before + declared_by(v.take(i + 1)));
        i = i + 1;
    }
    assert(v.take(i as int) =~= v);
}

/// The names that statements declare, in the order in which they do.
pub fn collect_top_level_names(stmts: &Vec<Spanned<Expression>>) -> (r: Vec<String>)
    ensures
        texts(r@) == declared_by(nodes(stmts@)),
{
    let mut names: Vec<String> = Vec::new();
    add_top_level_names(stmts, &mut names);
    assert(texts(names@) =~= declared_by(nodes(stmts@)));
    names
}

// ── Putting modules together ─────────────────────────────────────────────

/// The statements of a parsed file.
pub open spec fn stmts_of(n: Node) -> Seq<Node> {
    match n.item {
        Ast::Block(ns) => ns,
        _ => seq![n],
    }
}

fn parse_block(src: &str, path: &str) -> (r: Result<Vec<Spanned<Expression>>, ModuleError>)
    ensures
        match parsed(src@) {
            Ok(n) => r is Ok && nodes(r->Ok_0@) == stmts_of(n),
            Err(es) => r is Err && r->Err_0@ == Mishap::Parse(path@, es),
        },
{
    match Parser::parse(src) {
        Ok(n) => {
            let ghost given = n;
            match n.item {
                Expression::Block(stmts) => Ok(stmts),
                item => {
                    let mut stmts: Vec<Spanned<Expression>> = Vec::new();
                    stmts.push(Spanned { span: n.span, item });
                    proof {
                        nodes_push(Seq::empty(), given);
                        assert(stmts@ =~= Seq::empty().push(given));
                        assert(nodes(stmts@) =~= seq![node(given)]);
                    }
                    Ok(stmts)
                },
            }
        },
        Err(errors) => Err(ModuleError::Parse { path: owned(path), errors }),
    }
}

/// The name that a module's own name becomes.
pub open spec fn mangled(k: nat, name: Seq<char>) -> Seq<char> {
    "__mod"@ + decimal(k) + "__"@ + name
}

pub open spec fn mangle_all(k: nat, names: Seq<Seq<char>>) -> Pairs {
    names.map_values(|n: Seq<char>| (n, mangled(k, n)))
}

fn mangle_names(k: usize, names: &Vec<String>) -> (r: Vec<(String, String)>)
    ensures
        pair_views(r@) == mangle_all(k as nat, texts(names@)),
{
    let number = decimal_of(k);
    let mut out: Vec<(String, String)> = Vec::new();
    let mut i: usize = 0;
    while i < names.len()
        invariant
            i <= names.len(),
            number@ == decimal(k as nat),
            pair_views(out@) =~= mangle_all(k as nat, texts(names@).take(i as int)),
        decreases names.len() - i,
    {
        let ghost before = out@;
        let mut to = owned("__mod");
        to.append(number.as_str());
        to.append("__");
        to.append(names[i].as_str());
        assert(to@ =~= mangled(k as nat, names@[i as int]@));
        let from = owned(names[i].as_str());
        let ghost pair = (from, to);
        out.push((from, to));
        assert(pair_views(out@) =~= pair_views(before).push((pair.0@, pair.1@)));
        assert(texts(names@).take(i + 1) =~= texts(names@).take(i as int).push(names@[i as int]@));
        i = i + 1;
    }
    assert(texts(names@).take(i as int) =~= texts(names@));
    out
}

fn copy_pairs(ps: &Vec<(String, String)>) -> (r: Vec<(String, String)>)
    ensures
        pair_views(r@) == pair_views(ps@),
{
    let mut out: Vec<(String, String)> = Vec::new();
    let mut i: usize = 0;
    while i < ps.len()
        invariant
            i <= ps.len(),
            pair_views(out@) =~= pair_views(ps@).take(i as int),
        decreases ps.len() - i,
    {
        let ghost before = out@;
        let from = owned(ps[i].0.as_str());
        let to = owned(ps[i].1.as_str());
        let ghost pair = (from, to);
        out.push((from, to));
        assert(pair_views(out@) =~= pair_views(before).push((pair.0@, pair.1@)));
        i = i + 1;
    }
    assert(pair_views(ps@).take(i as int) =~= pair_views(ps@));
    out
}

/// Whether an import has brought a name in.
pub open spec fn imported(cx: RenamesView, name: Seq<char>) -> bool {
    becomes(cx.subst, name) is Some || members_of(cx.qualified, name) is Some
}

fn is_imported(cx: &Renames, name: &str) -> (r: bool)
    ensures
        r == imported(cx@, name@),
{
    match find_name(&cx.subst, name) {
        Some(_) => true,
        None => match find_members(&cx.qualified, name) {
            Some(_) => true,
            None => false,
        },
    }
}

/// The first name that is both declared and imported.
pub open spec fn conflict(names: Seq<Seq<char>>, cx: RenamesView) -> Option<Seq<char>>
    decreases names.len(),
{
    if names.len() == 0 {
        None
    } else {
        match conflict(names.drop_last(), cx) {
            Some(n) => Some(n),
            None => if imported(cx, names.last()) {
                Some(names.last())
            } else {
                None
            },
        }
    }
}

fn find_conflict(names: &Vec<String>, cx: &Renames) -> (r: Option<String>)
    ensures
        match conflict(texts(names@), cx@) {
            Some(n) => r is Some && r->0@ == n,
            None => r is None,
        },
{
    let ghost v = texts(names@);
    let mut found: Option<String> = None;
    let mut i: usize = 0;
    while i < names.len()
        invariant
            i <= names.len() == v.len(),
            v == texts(names@),
            match conflict(v.take(i as int), cx@) {
                Some(n) => found is Some && found->0@ == n,
                None => found is None,
            },
        decreases names.len() - i,
    {
        assert(v.take(i + 1).drop_last() =~= v.take(i as int));
        assert(v.take(i + 1).last() == names@[i as int]@);
        let none = match &found {
            Some(_) => false,
            None => true,
        };
        if none && is_imported(cx, names[i].as_str()) {
            found = Some(owned(names[i].as_str()));
        }
        i = i + 1;
    }
    assert(v.take(i as int) =~= v);
    found
}

/// The statements of a module, renamed and without its imports.
pub open spec fn rename_tops(ns: Seq<Node>, cx: RenamesView) -> Seq<Node>
    decreases ns.len(),
{
    if ns.len() == 0 {
        Seq::empty()
    } else if ns.last().item is Import {
        rename_tops(ns.drop_last(), cx)
    } else {
        rename_tops(ns.drop_last(), cx).push(rename_node(ns.last(), cx, Set::empty(), false).0)
    }
}

fn rewrite_tops(stmts: Vec<Spanned<Expression>>, cx: &Renames, out: &mut Vec<Spanned<Expression>>)
    ensures
        nodes(final(out)@) == nodes(old(out)@) + rename_tops(nodes(stmts@), cx@),
{
    let ghost given = stmts@;
    let ghost v = nodes(stmts@);
    let ghost before = nodes(out@);
    proof {
        nodes_index(given);
    }
    let total: usize = stmts.len();
    let mut left = reversed(stmts);
    let mut i: usize = 0;
    assert(nodes(out@) =~= before + rename_tops(v.take(0), cx@));
    while left.len() > 0
        invariant
            i + left.len() == total == v.len() == given.len(),
            forall|k: int| 0 <= k < given.len() ==> #[trigger] v[k] == node(given[k]),
            forall|k: int| 0 <= k < left.len() ==> #[trigger] left@[k] == given[given.len() - 1 - k],
            nodes(out@) == before + rename_tops(v.take(i as int), cx@),
        decreases left.len(),
    {
        assert(v.take(i + 1).drop_last() =~= v.take(i as int));
        assert(v.take(i + 1).last() == v[i as int]);
        match left.pop() {
            Some(s) => {
                assert(s == given[i as int]);
                let import = match &s.item {
                    Expression::Import(_) => true,
                    _ => false,
                };
                if !import {
                    let none = NameSet::empty();
                    let (t, _) = rewrite_node(s, cx, none, false);
                    proof {
                        nodes_push(out@, t);
                    }
                    out.push(t);
                }
                assert(nodes(out@) =~= before + rename_tops(v.take(i + 1), cx@));
            },
            None => {},
        }
        i = i + 1;
    }
    assert(v.take(i as int) =~= v);
}

/// A file that is being put in: where its importer and the file itself say
/// that it is, its statements, how many of them have been looked at, and what
/// the imports among those renamed.
pub struct Frame {
    path: String,
    target: String,
    stmts: Vec<Spanned<Expression>>,
    next: usize,
    renames: Renames,
}

pub ghost struct FrameView {
    pub path: Seq<char>,
    pub target: Seq<char>,
    pub stmts: Seq<Node>,
    pub next: int,
    pub renames: RenamesView,
}

impl View for Frame {
    type V = FrameView;

    closed spec fn view(&self) -> FrameView {
        FrameView {
            path: self.path@,
            target: self.target@,
            stmts: nodes(self.stmts@),
            next: self.next as int,
            renames: self.renames@,
        }
    }
}

/// Puts the files of a program together, one file at a time. It finds no file
/// and reads none: it says what it needs, and is told.
pub struct ModuleResolver {
    /// The files that are done, with what the names of each became.
    modules: Vec<(String, Vec<(String, String)>)>,
    /// The files that are not, the entry first, each an importer of the next.
    frames: Vec<Frame>,
    /// The statements so far.
    output: Vec<Spanned<Expression>>,
}

pub ghost struct ResolverView {
    pub modules: Seq<(Seq<char>, Pairs)>,
    pub frames: Seq<FrameView>,
    pub output: Seq<Node>,
}

pub closed spec fn frame_views(fs: Seq<Frame>) -> Seq<FrameView> {
    fs.map_values(|f: Frame| f@)
}

impl View for ModuleResolver {
    type V = ResolverView;

    closed spec fn view(&self) -> ResolverView {
        ResolverView {
            modules: alias_views(self.modules@),
            frames: frame_views(self.frames@),
            output: nodes(self.output@),
        }
    }
}

/// What the resolver needs next.
#[derive(Debug, PartialEq)]
pub enum Step {
    /// The file that the import `path` of the file `importer` names.
    Locate { importer: String, path: String },
    /// Nothing: all files are in.
    Done,
}

pub ghost enum StepView {
    Locate(Seq<char>, Seq<char>),
    Done,
}

impl View for Step {
    type V = StepView;

    open spec fn view(&self) -> StepView {
        match *self {
            Step::Locate { importer, path } => StepView::Locate(importer@, path@),
            Step::Done => StepView::Done,
        }
    }
}

/// Whether a file is at one of its imports.
pub open spec fn at_import(f: FrameView) -> bool {
    0 <= f.next < f.stmts.len() && f.stmts[f.next].item is Import
}

/// Whether the resolver waits for a file.
pub open spec fn waiting(r: ResolverView) -> bool {
    r.frames.len() > 0 && at_import(r.frames.last())
}

/// Every file but the last is at the import that the next one comes from.
pub open spec fn stacked(r: ResolverView) -> bool {
    forall|i: int| 0 <= i < r.frames.len() - 1 ==> at_import(#[trigger] r.frames[i])
}

pub open spec fn with_top(r: ResolverView, f: FrameView) -> ResolverView {
    ResolverView { frames: r.frames.drop_last().push(f), ..r }
}

fn no_renames() -> (r: Renames)
    ensures
        r@ == empty_renames(),
{
    let r = Renames { subst: Vec::new(), qualified: Vec::new() };
    assert(r@.subst =~= Seq::empty());
    assert(r@.qualified =~= Seq::empty());
    r
}

/// A file at its start: it parses, and no import is hidden in it.
pub open spec fn opened(path: Seq<char>, target: Seq<char>, text: Seq<char>) -> Result<FrameView, Mishap> {
    match parsed(text) {
        Err(es) => Err(Mishap::Parse(path, es)),
        Ok(n) => if nested_import(stmts_of(n)) {
            Err(Mishap::ImportNotAtTopLevel(path))
        } else {
            Ok(FrameView { path, target, stmts: stmts_of(n), next: 0, renames: empty_renames() })
        },
    }
}

fn open_file(path: &str, target: &str, text: &str) -> (r: Result<Frame, ModuleError>)
    ensures
        match opened(path@, target@, text@) {
            Ok(f) => r is Ok && r->Ok_0@ == f,
            Err(e) => r is Err && r->Err_0@ == e,
        },
{
    let stmts = match parse_block(text, path) {
        Ok(stmts) => stmts,
        Err(e) => {
            return Err(e);
        },
    };
    match check_no_nested_imports(&stmts, path) {
        Ok(_) => {
            let renames = no_renames();
            Ok(Frame { path: owned(path), target: owned(target), stmts, next: 0, renames })
        },
        Err(e) => Err(e),
    }
}

/// What names an import brings in, one after another.
pub open spec fn bound_names(
    cx: RenamesView,
    names: Seq<Seq<char>>,
    exports: Pairs,
    target: Seq<char>,
    path: Seq<char>,
) -> Result<RenamesView, Mishap>
    decreases names.len(),
{
    if names.len() == 0 {
        Ok(cx)
    } else {
        match bound_names(cx, names.drop_last(), exports, target, path) {
            Err(e) => Err(e),
            Ok(cx) => match becomes(exports, names.last()) {
                None => Err(Mishap::UnknownExport(target, names.last())),
                Some(to) => if imported(cx, names.last()) {
                    Err(Mishap::DuplicateImportBinding(path, names.last()))
                } else {
                    Ok(RenamesView { subst: cx.subst.push((names.last(), to)), ..cx })
                },
            },
        }
    }
}

fn bind_names(
    cx: &mut Renames,
    names: &Vec<String>,
    exports: &Vec<(String, String)>,
    target: &str,
    path: &str,
) -> (r: Result<(), ModuleError>)
    ensures
        match bound_names(old(cx)@, texts(names@), pair_views(exports@), target@, path@) {
            Ok(v) => r is Ok && final(cx)@ == v,
            Err(e) => r is Err && r->Err_0@ == e,
        },
{
    let ghost before = cx@;
    let ghost v = texts(names@);
    let ghost ex = pair_views(exports@);
    let mut i: usize = 0;
    while i < names.len()
        invariant
            i <= names.len() == v.len(),
            v == texts(names@),
            ex == pair_views(exports@),
            before == old(cx)@,
            bound_names(before, v.take(i as int), ex, target@, path@) == Ok::<RenamesView, Mishap>(cx@),
        decreases names.len() - i,
    {
        assert(v.take(i + 1).drop_last() =~= v.take(i as int));
        assert(v.take(i + 1).last() == names@[i as int]@);
        let name = names[i].as_str();
        match find_name(exports, name) {
            None => {
                proof {
                    bound_names_fail(before, v, ex, target@, path@, i + 1);
                }
                return Err(ModuleError::UnknownExport { path: owned(target), name: owned(name) });
            },
            Some(to) => {
                if is_imported(cx, name) {
                    proof {
                        bound_names_fail(before, v, ex, target@, path@, i + 1);
                    }
                    return Err(ModuleError::DuplicateImportBinding { path: owned(path), name: owned(name) });
                }
                let from = owned(name);
                let to = owned(to.as_str());
                let ghost pair = (from, to);
                let ghost was = cx.subst@;
                cx.subst.push((from, to));
                assert(pair_views(cx.subst@) =~= pair_views(was).push((pair.0@, pair.1@)));
            },
        }
        i = i + 1;
    }
    assert(v.take(i as int) =~= v);
    Ok(())
}

/// The first name that cannot be brought in decides.
proof fn bound_names_fail(
    cx: RenamesView,
    names: Seq<Seq<char>>,
    exports: Pairs,
    target: Seq<char>,
    path: Seq<char>,
    i: int,
)
    requires
        0 <= i <= names.len(),
        bound_names(cx, names.take(i), exports, target, path) is Err,
    ensures
        bound_names(cx, names, exports, target, path) == bound_names(cx, names.take(i), exports, target, path),
    decreases names.len(),
{
    if i == names.len() {
        assert(names.take(i) =~= names);
    } else {
        assert(names.drop_last().take(i) =~= names.take(i));
        bound_names_fail(cx, names.drop_last(), exports, target, path, i);
    }
}

/// A file after the import that it is at: it brings in what the file `target`
/// has.
pub open spec fn bound(f: FrameView, exports: Pairs, target: Seq<char>) -> Result<FrameView, Mishap> {
    match f.stmts[f.next].item {
        Ast::Import(i) => match i.kind {
            ImportKindView::Named(names) => match bound_names(f.renames, names, exports, target, f.path) {
                Ok(renames) => Ok(FrameView { next: f.next + 1, renames, ..f }),
                Err(e) => Err(e),
            },
            ImportKindView::Qualified(alias) => if imported(f.renames, alias) {
                Err(Mishap::DuplicateImportBinding(f.path, alias))
            } else {
                Ok(
                    FrameView {
                        next: f.next + 1,
                        renames: RenamesView { qualified: f.renames.qualified.push((alias, exports)), ..f.renames },
                        ..f
                    },
                )
            },
        },
        _ => Ok(f),
    }
}

fn bind_import(f: Frame, exports: &Vec<(String, String)>, target: &str) -> (r: Result<Frame, ModuleError>)
    requires
        at_import(f@),
    ensures
        match bound(f@, pair_views(exports@), target@) {
            Ok(g) => r is Ok && r->Ok_0@ == g,
            Err(e) => r is Err && r->Err_0@ == e,
        },
{
    proof {
        nodes_index(f.stmts@);
        assert(f@.stmts[f.next as int] == node(f.stmts@[f.next as int]));
    }
    assert(f.next < f.stmts.len());
    let mut renames = f.renames;
    match &f.stmts[f.next].item {
        Expression::Import(i) => match &i.kind {
            ImportKind::Named(names) => {
                match bind_names(&mut renames, names, exports, target, f.path.as_str()) {
                    Ok(_) => {},
                    Err(e) => {
                        return Err(e);
                    },
                }
            },
            ImportKind::Qualified(alias) => {
                if is_imported(&renames, alias.as_str()) {
                    return Err(
                        ModuleError::DuplicateImportBinding {
                            path: owned(f.path.as_str()),
                            name: owned(alias.as_str()),
                        },
                    );
                }
                let name = owned(alias.as_str());
                let members = copy_pairs(exports);
                let ghost pair = (name, members);
                let ghost was = renames.qualified@;
                renames.qualified.push((name, members));
                assert(alias_views(renames.qualified@) =~= alias_views(was).push((pair.0@, pair_views(pair.1@))));
            },
        },
        _ => {},
    }
    Ok(Frame { path: f.path, target: f.target, stmts: f.stmts, next: f.next + 1, renames })
}

/// The resolver after a file of which nothing is left: its statements are put
/// out. Those of the entry keep their own names; those of any other file get
/// new ones, and its importer what it imports.
pub open spec fn closed_file(r: ResolverView) -> Result<ResolverView, Mishap> {
    let f = r.frames.last();
    let names = declared_by(f.stmts);
    match conflict(names, f.renames) {
        Some(name) => Err(Mishap::NameConflict(f.path, name)),
        None => if r.frames.len() == 1 {
            Ok(
                ResolverView {
                    frames: Seq::empty(),
                    output: r.output + rename_tops(f.stmts, f.renames),
                    ..r
                },
            )
        } else {
            let own = mangle_all(r.modules.len(), names);
            let cx = RenamesView { subst: own + f.renames.subst, ..f.renames };
            match bound(r.frames[r.frames.len() - 2], own, f.target) {
                Err(e) => Err(e),
                Ok(g) => Ok(
                    ResolverView {
                        modules: r.modules.push((f.path, own)),
                        frames: r.frames.drop_last().drop_last().push(g),
                        output: r.output + rename_tops(f.stmts, cx),
                    },
                ),
            }
        },
    }
}

/// What the resolver does until it needs a file.
pub open spec fn advanced(r: ResolverView) -> Result<(ResolverView, StepView), Mishap>
    decreases r.frames.len(), r.frames.last().stmts.len() - r.frames.last().next,
{
    if r.frames.len() == 0 {
        Ok((r, StepView::Done))
    } else {
        let f = r.frames.last();
        if 0 <= f.next < f.stmts.len() {
            match f.stmts[f.next].item {
                Ast::Import(i) => Ok((r, StepView::Locate(f.path, i.path))),
                _ => advanced(with_top(r, FrameView { next: f.next + 1, ..f })),
            }
        } else {
            match closed_file(r) {
                Err(e) => Err(e),
                Ok(s) => if s.frames.len() < r.frames.len() {
                    advanced(s)
                } else {
                    Ok((s, StepView::Done))
                },
            }
        }
    }
}

/// The paths of the imported files that are not done.
pub open spec fn in_progress(r: ResolverView) -> Seq<Seq<char>> {
    Seq::new((r.frames.len() - 1) as nat, |i: int| r.frames[i + 1].path)
}

/// What follows from where a file is: `true` if it has to be read.
pub open spec fn located(r: ResolverView, target: Seq<char>, canonical: Seq<char>) -> Result<
    (ResolverView, bool),
    Mishap,
> {
    match members_of(r.modules, canonical) {
        Some(exports) => match bound(r.frames.last(), exports, target) {
            Ok(f) => Ok((with_top(r, f), false)),
            Err(e) => Err(e),
        },
        None => if in_progress(r).contains(canonical) {
            Err(Mishap::Cycle(in_progress(r).push(canonical)))
        } else {
            Ok((r, true))
        },
    }
}

/// What follows from what a file holds.
pub open spec fn loaded(r: ResolverView, target: Seq<char>, canonical: Seq<char>, text: Seq<char>) -> Result<
    ResolverView,
    Mishap,
> {
    match opened(canonical, target, text) {
        Ok(f) => Ok(ResolverView { frames: r.frames.push(f), ..r }),
        Err(e) => Err(e),
    }
}

impl ModuleResolver {
    /// Starts on a program whose text is at hand. `path` is where it is, or
    /// would be.
    pub fn start(text: &str, path: &str) -> (r: Result<ModuleResolver, ModuleError>)
        ensures
            match opened(path@, path@, text@) {
                Ok(f) => r is Ok && r->Ok_0@ == (ResolverView {
                    modules: Seq::empty(),
                    frames: seq![f],
                    output: Seq::empty(),
                }) && stacked(r->Ok_0@),
                Err(e) => r is Err && r->Err_0@ == e,
            },
    {
        let f = match open_file(path, path, text) {
            Ok(f) => f,
            Err(e) => {
                return Err(e);
            },
        };
        let ghost fv = f@;
        let mut frames: Vec<Frame> = Vec::new();
        frames.push(f);
        let r = ModuleResolver { modules: Vec::new(), frames, output: Vec::new() };
        assert(r@.modules =~= Seq::empty());
        assert(r@.frames =~= seq![fv]);
        assert(r@.output =~= Seq::empty());
        Ok(r)
    }

    /// Goes on until a file is needed or nothing is left to do.
    pub fn next(&mut self) -> (r: Result<Step, ModuleError>)
        requires
            stacked(old(self)@),
        ensures
            match advanced(old(self)@) {
                Ok((v, s)) => r is Ok && r->Ok_0@ == s && final(self)@ == v && stacked(v) && (s is Locate ==> waiting(v)),
                Err(e) => r is Err && r->Err_0@ == e,
            },
    {
        while self.frames.len() > 0
            invariant
                stacked(self@),
                advanced(self@) == advanced(old(self)@),
            decreases
                self.frames.len(),
                if self.frames.len() > 0 { self@.frames.last().stmts.len() - self@.frames.last().next } else { 0 },
        {
            let ghost before = self@;
            let ghost n = self.frames.len();
            let ghost top = self.frames@.last();
            assert(before.frames.last() == top@);
            assert(top == self.frames@[n - 1]);
            let f = match self.frames.pop() {
                Some(f) => f,
                None => {
                    return Ok(Step::Done);
                },
            };
            assert(f == top);
            assert(frame_views(self.frames@) =~= before.frames.drop_last());
            proof {
                nodes_index(f.stmts@);
            }
            if f.next < f.stmts.len() {
                assert(f@.stmts[f.next as int] == node(f.stmts@[f.next as int]));
                let need: Option<String> = match &f.stmts[f.next].item {
                    Expression::Import(i) => Some(owned(i.path.as_str())),
                    _ => None,
                };
                match need {
                    Some(path) => {
                        let importer = owned(f.path.as_str());
                        self.frames.push(f);
                        assert(frame_views(self.frames@) =~= before.frames);
                        return Ok(Step::Locate { importer, path });
                    },
                    None => {
                        let g = Frame {
                            path: f.path,
                            target: f.target,
                            stmts: f.stmts,
                            next: f.next + 1,
                            renames: f.renames,
                        };
                        self.frames.push(g);
                        assert(frame_views(self.frames@) =~= before.frames.drop_last().push(g@));
                        assert(self@ == with_top(before, FrameView { next: top@.next + 1, ..top@ }));
                    },
                }
            } else {
                assert(before.frames =~= self@.frames.push(f@));
                self.close(f)?;
                assert(closed_file(before) == Ok::<ResolverView, Mishap>(self@));
            }
        }
        Ok(Step::Done)
    }

    /// Takes in where the file is that was asked for: `target` as the import
    /// names it, `canonical` as it is. `true` comes back if its text is needed.
    pub fn located(&mut self, target: &str, canonical: &str) -> (r: Result<bool, ModuleError>)
        requires
            stacked(old(self)@),
            waiting(old(self)@),
        ensures
            match located(old(self)@, target@, canonical@) {
                Ok((v, b)) => r == Ok::<bool, ModuleError>(b) && final(self)@ == v && stacked(v) && (b ==> waiting(v)),
                Err(e) => r is Err && r->Err_0@ == e,
            },
    {
        let ghost before = self@;
        let exports = match find_members(&self.modules, canonical) {
            Some(exports) => Some(copy_pairs(exports)),
            None => None,
        };
        match exports {
            Some(exports) => {
                assert(before.frames.last() == self.frames@.last()@);
                match self.frames.pop() {
                    Some(f) => {
                        assert(frame_views(self.frames@) =~= before.frames.drop_last());
                        let g = bind_import(f, &exports, target)?;
                        self.frames.push(g);
                        assert(frame_views(self.frames@) =~= before.frames.drop_last().push(g@));
                        Ok(false)
                    },
                    None => Ok(false),
                }
            },
            None => {
                let mut chain: Vec<String> = Vec::new();
                let mut seen = false;
                let mut i: usize = 1;
                while i < self.frames.len()
                    invariant
                        1 <= i <= self.frames.len(),
                        self@ == before,
                        texts(chain@) =~= in_progress(before).take(i - 1),
                        seen == in_progress(before).take(i - 1).contains(canonical@),
                    decreases self.frames.len() - i,
                {
                    let ghost was = chain@;
                    let path = self.frames[i].path.as_str();
                    assert(before.frames[i as int].path == path@);
                    let ghost all = in_progress(before);
                    assert(all.take(i as int) =~= all.take(i - 1).push(path@));
                    let same = same_text(path, canonical);
                    proof {
                        let sofar = all.take(i - 1);
                        let more = all.take(i as int);
                        if more.contains(canonical@) && !same {
                            let j = choose|j: int| 0 <= j < more.len() && more[j] == canonical@;
                            assert(sofar[j] == canonical@);
                        }
                        if seen {
                            let j = choose|j: int| 0 <= j < sofar.len() && sofar[j] == canonical@;
                            assert(more[j] == canonical@);
                        }
                        if same {
                            assert(more[i - 1] == canonical@);
                        }
                    }
                    if same {
                        seen = true;
                    }
                    chain.push(owned(path));
                    assert(texts(chain@) =~= texts(was).push(path@));
                    i = i + 1;
                }
                assert(in_progress(before).take(i - 1) =~= in_progress(before));
                if seen {
                    let ghost was = chain@;
                    chain.push(owned(canonical));
                    assert(texts(chain@) =~= texts(was).push(canonical@));
                    Err(ModuleError::Cycle { chain })
                } else {
                    Ok(true)
                }
            },
        }
    }

    /// Takes in the text of the file that was asked for.
    pub fn loaded(&mut self, target: &str, canonical: &str, text: &str) -> (r: Result<(), ModuleError>)
        requires
            stacked(old(self)@),
            waiting(old(self)@),
        ensures
            match loaded(old(self)@, target@, canonical@, text@) {
                Ok(v) => r is Ok && final(self)@ == v && stacked(v),
                Err(e) => r is Err && r->Err_0@ == e,
            },
    {
        let ghost before = self@;
        let f = open_file(canonical, target, text)?;
        let ghost fv = f@;
        self.frames.push(f);
        assert(frame_views(self.frames@) =~= before.frames.push(fv));
        Ok(())
    }

    /// The statements of the whole program, those of each imported file before
    /// those of its importers.
    pub fn finish(self) -> (r: Vec<Spanned<Expression>>)
        ensures
            nodes(r@) == self@.output,
    {
        self.output
    }

    fn close(&mut self, f: Frame) -> (r: Result<(), ModuleError>)
        requires
            forall|i: int| 0 <= i < old(self)@.frames.len() ==> at_import(#[trigger] old(self)@.frames[i]),
        ensures
            match closed_file(ResolverView { frames: old(self)@.frames.push(f@), ..old(self)@ }) {
                Ok(v) => r is Ok && final(self)@ == v && stacked(v) && v.frames.len() <= old(self)@.frames.len(),
                Err(e) => r is Err && r->Err_0@ == e,
            },
    {
        let ghost before = self@;
        let ghost full = ResolverView { frames: before.frames.push(f@), ..before };
        assert(full.frames.last() == f@);
        assert(full.frames.drop_last() =~= before.frames);
        let names = collect_top_level_names(&f.stmts);
        match find_conflict(&names, &f.renames) {
            Some(name) => {
                return Err(ModuleError::NameConflict { path: f.path, name });
            },
            None => {},
        }
        match self.frames.pop() {
            None => {
                rewrite_tops(f.stmts, &f.renames, &mut self.output);
                assert(self@.frames =~= Seq::empty());
                Ok(())
            },
            Some(parent) => {
                assert(before.frames.last() == parent@);
                assert(full.frames[full.frames.len() - 2] == parent@);
                assert(frame_views(self.frames@) =~= before.frames.drop_last());
                let own = mangle_names(self.modules.len(), &names);
                let ghost ownv = pair_views(own@);
                let g = bind_import(parent, &own, f.target.as_str())?;
                let mut subst = copy_pairs(&own);
                let ghost first = subst@;
                let Renames { subst: mut rest, qualified } = f.renames;
                let ghost second = rest@;
                subst.append(&mut rest);
                assert(pair_views(subst@) =~= pair_views(first) + pair_views(second));
                let cx = Renames { subst, qualified };
                rewrite_tops(f.stmts, &cx, &mut self.output);
                let ghost was = self.modules@;
                let ghost path = f.path;
                self.modules.push((f.path, own));
                assert(alias_views(self.modules@) =~= alias_views(was).push((path@, ownv)));
                self.frames.push(g);
                assert(frame_views(self.frames@) =~= before.frames.drop_last().push(g@));
                Ok(())
            },
        }
    }
}

// ── Laws ─────────────────────────────────────────────────────────────────

proof fn no_conflict(names: Seq<Seq<char>>)
    ensures
        conflict(names, empty_renames()) is None,
    decreases names.len(),
{
    if names.len() > 0 {
        no_conflict(names.drop_last());
    }
}

proof fn tops_kept(ns: Seq<Node>)
    requires
        forall|i: int| 0 <= i < ns.len() ==> !(#[trigger] ns[i].item is Import),
    ensures
        rename_tops(ns, empty_renames()) == ns,
    decreases ns.len(),
{
    if ns.len() > 0 {
        assert forall|i: int| 0 <= i < ns.drop_last().len() implies !(#[trigger] ns.drop_last()[i].item is Import) by {
            assert(ns.drop_last()[i] == ns[i]);
        }
        tops_kept(ns.drop_last());
        assert(!(ns[ns.len() - 1].item is Import));
        renaming_nothing_changes_nothing(ns.last().item, Set::empty(), false);
    }
    assert(rename_tops(ns, empty_renames()) =~= ns);
}

/// A program of one file, without an import, is put out as it is.
pub proof fn one_file_stays_as_it_is(f: FrameView)
    requires
        0 <= f.next <= f.stmts.len(),
        f.renames == empty_renames(),
        forall|i: int| 0 <= i < f.stmts.len() ==> !(#[trigger] f.stmts[i].item is Import),
    ensures
        advanced(ResolverView { modules: Seq::empty(), frames: seq![f], output: Seq::empty() }) == Ok::<
            (ResolverView, StepView),
            Mishap,
        >(
            (
                ResolverView { modules: Seq::empty(), frames: Seq::empty(), output: f.stmts },
                StepView::Done,
            ),
        ),
    decreases f.stmts.len() - f.next,
{
    let r = ResolverView { modules: Seq::empty(), frames: seq![f], output: Seq::empty() };
    assert(r.frames.last() == f);
    if f.next < f.stmts.len() {
        let g = FrameView { next: f.next + 1, ..f };
        assert(!(f.stmts[f.next].item is Import));
        assert(with_top(r, g).frames =~= seq![g]);
        one_file_stays_as_it_is(g);
        assert(with_top(r, g) == (ResolverView { modules: Seq::empty(), frames: seq![g], output: Seq::empty() }));
    } else {
        no_conflict(declared_by(f.stmts));
        tops_kept(f.stmts);
        let s = ResolverView { modules: Seq::empty(), frames: Seq::empty(), output: f.stmts };
        assert(r.output + f.stmts =~= f.stmts);
        assert(closed_file(r) == Ok::<ResolverView, Mishap>(s));
        assert(advanced(s) == Ok::<(ResolverView, StepView), Mishap>((s, StepView::Done)));
    }
}

/// A file that is done is not asked for again.
pub proof fn a_file_is_read_once(r: ResolverView, target: Seq<char>, canonical: Seq<char>)
    requires
        members_of(r.modules, canonical) is Some,
    ensures
        located(r, target, canonical) is Ok ==> !(located(r, target, canonical)->Ok_0).1,
{
}

/// A file that is done stays done, and what its names became stays the same.
pub proof fn a_done_file_stays_done(r: ResolverView, canonical: Seq<char>)
    requires
        members_of(r.modules, canonical) is Some,
        forall|i: int| 0 <= i < r.frames.len() ==> (#[trigger] r.frames[i]).path != canonical,
    ensures
        advanced(r) is Ok ==> members_of((advanced(r)->Ok_0).0.modules, canonical) == members_of(
            r.modules,
            canonical,
        ),
    decreases r.frames.len(), r.frames.last().stmts.len() - r.frames.last().next,
{
    if r.frames.len() > 0 {
        let f = r.frames.last();
        assert(f == r.frames[r.frames.len() - 1]);
        if 0 <= f.next < f.stmts.len() {
            if !(f.stmts[f.next].item is Import) {
                let s = with_top(r, FrameView { next: f.next + 1, ..f });
                assert forall|i: int| 0 <= i < s.frames.len() implies (#[trigger] s.frames[i]).path != canonical by {
                    assert(r.frames[i].path != canonical);
                }
                a_done_file_stays_done(s, canonical);
            }
        } else {
            match closed_file(r) {
                Ok(s) => {
                    if r.frames.len() > 1 {
                        let own = mangle_all(r.modules.len(), declared_by(f.stmts));
                        assert(s.modules == r.modules.push((f.path, own)));
                        assert(s.modules.drop_last() =~= r.modules);
                        assert(r.frames[r.frames.len() - 2].path != canonical);
                        assert forall|i: int| 0 <= i < s.frames.len() implies (#[trigger] s.frames[i]).path
                            != canonical by {
                            assert(r.frames[i].path != canonical);
                        }
                        a_done_file_stays_done(s, canonical);
                    }
                },
                Err(_) => {},
            }
        }
    }
}

proof fn decimal_digits(n: nat)
    ensures
        decimal(n).len() >= 1,
        forall|i: int| 0 <= i < decimal(n).len() ==> #[trigger] decimal(n)[i] != '_',
    decreases n,
{
    if n >= 10 {
        decimal_digits(n / 10);
        assert(digit_char((n % 10) as int) != '_');
        assert forall|i: int| 0 <= i < decimal(n).len() implies #[trigger] decimal(n)[i] != '_' by {
            if i < decimal(n / 10).len() {
                assert(decimal(n)[i] == decimal(n / 10)[i]);
            }
        }
    }
}

proof fn decimal_injective(a: nat, b: nat)
    requires
        decimal(a) == decimal(b),
    ensures
        a == b,
    decreases a,
{
    decimal_digits(a);
    decimal_digits(b);
    if a >= 10 {
        decimal_digits(a / 10);
    }
    if b >= 10 {
        decimal_digits(b / 10);
    }
    if a >= 10 && b >= 10 {
        assert(decimal(a).drop_last() =~= decimal(a / 10));
        assert(decimal(b).drop_last() =~= decimal(b / 10));
        decimal_injective(a / 10, b / 10);
        assert(decimal(a).last() == decimal(b).last());
        assert(decimal(a).last() == digit_char((a % 10) as int));
        assert(decimal(b).last() == digit_char((b % 10) as int));
        assert(a % 10 == b % 10);
    } else if a >= 10 {
        assert(decimal(a).len() >= 2);
        assert(decimal(b).len() == 1);
    } else if b >= 10 {
        assert(decimal(b).len() >= 2);
        assert(decimal(a).len() == 1);
    } else {
        assert(decimal(a)[0] == decimal(b)[0]);
        assert(decimal(a)[0] == digit_char(a as int));
        assert(decimal(b)[0] == digit_char(b as int));
    }
}

/// Two names of two modules, or two of one, never become the same name.
pub proof fn mangled_names_are_apart(k: nat, m: Seq<char>, l: nat, n: Seq<char>)
    requires
        mangled(k, m) == mangled(l, n),
    ensures
        k == l,
        m == n,
{
    reveal_strlit("__mod");
    reveal_strlit("__");
    let a = mangled(k, m);
    let b = mangled(l, n);
    let i = decimal(k).len() as int;
    let j = decimal(l).len() as int;
    decimal_digits(k);
    decimal_digits(l);
    assert(a[5 + i] == '_');
    assert(b[5 + j] == '_');
    if i < j {
        assert(b[5 + i] == decimal(l)[i]);
    }
    if j < i {
        assert(a[5 + j] == decimal(k)[j]);
    }
    assert(decimal(k) =~= a.subrange(5, 5 + i));
    assert(decimal(l) =~= b.subrange(5, 5 + j));
    decimal_injective(k, l);
    assert(m =~= a.subrange(7 + i, a.len() as int));
    assert(n =~= b.subrange(7 + j, b.len() as int));
}

} // verus!
