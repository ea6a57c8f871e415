use froglang_core::expression::{Expression, FieldDecl, ImportKind, Mutability, Pattern};
use froglang_core::grammar::Grammar;
use froglang_core::parser::{ParseError, Parser, Precedence};
use froglang_core::tokens::{Span, Spanned, Token};
use froglang_core::type_expr::TypeExpr;

// The tree of a program, in brackets.
fn sx(e: &Expression) -> String {
    let one = |n: &Spanned<Expression>| sx(&n.item);
    let opt = |n: &Option<Box<Spanned<Expression>>>| match n {
        Some(x) => sx(&x.item),
        None => "-".to_string(),
    };
    let all = |ns: &Vec<Spanned<Expression>>| ns.iter().map(|n| sx(&n.item)).collect::<Vec<_>>().join(" ");
    match e {
        Expression::Literal(l) => l.token.show(),
        Expression::Return(v) => format!("(return {})", opt(v)),
        Expression::Unary(u) => format!("({} {})", u.op.show(), one(&u.expr)),
        Expression::Binary(b) => format!("({} {} {})", b.op.show(), one(&b.left), one(&b.right)),
        Expression::Conditional(c) => format!("(if {} {} {})", one(&c.cond), one(&c.true_branch), opt(&c.false_branch)),
        Expression::Assign(a) => {
            let word = match a.decl {
                Some(Mutability::Immutable) => "let",
                Some(Mutability::Mutable) => "mut",
                None => "set",
            };
            let ty = match &a.typ {
                Some(t) => format!(" : {}", t.item.show()),
                None => "".to_string(),
            };
            format!("({} {}{} {})", word, one(&a.target), ty, one(&a.value))
        }
        Expression::Function(f) => {
            let ps: Vec<String> = f
                .params
                .iter()
                .map(|p| {
                    let ty = match &p.ty {
                        Some(t) => format!(":{}", t.item.show()),
                        None => "".to_string(),
                    };
                    format!("{}{}{}", if p.mutable { "mut " } else { "" }, p.name, ty)
                })
                .collect();
            let ret = match &f.return_type {
                Some(t) => format!(" : {}", t.item.show()),
                None => "".to_string(),
            };
            format!("(fn [{}]{} {})", ps.join(" "), ret, one(&f.body))
        }
        Expression::Call(c) => format!("(call {} {})", one(&c.callable), all(&c.args)),
        Expression::Tuple(es) => format!("[{}]", all(es)),
        Expression::Block(es) => format!("{{{}}}", all(es)),
        Expression::Annotated(a) => format!("({} : {})", one(&a.expr), a.ty.item.show()),
        Expression::Index(i) => format!("(at {} {})", one(&i.target), one(&i.index)),
        Expression::Slice(s) => format!("(slice {} {} {})", one(&s.target), opt(&s.start), opt(&s.end)),
        Expression::Range(r) => format!("(range {} {})", one(&r.start), one(&r.end)),
        Expression::ForLoop(f) => {
            format!("(for {} {} {} {})", f.var, one(&f.iterable), opt(&f.cond), one(&f.body))
        }
        Expression::Comprehension(x) => format!("(collect {})", one(x)),
        Expression::DataDecl(d) => {
            let vs: Vec<String> = d.variants.iter().map(|v| format!("{}({})", v.name, fields(&v.fields))).collect();
            format!("(data {} ({}) {} provides {})", d.name, fields(&d.fields), vs.join("|"), d.provides.join(","))
        }
        Expression::FieldAccess(f) => format!("(. {} {})", one(&f.target), f.field),
        Expression::Import(i) => match &i.kind {
            ImportKind::Named(ns) => format!("(import {} {})", i.path, ns.join(",")),
            ImportKind::Qualified(a) => format!("(import {} as {})", i.path, a),
        },
        Expression::Match(m) => {
            let arms: Vec<String> = m
                .arms
                .iter()
                .map(|a| format!("({} {} {})", pattern(&a.pattern), opt(&a.guard), one(&a.body)))
                .collect();
            format!("(match {} {} {})", one(&m.subject), arms.join(" "), opt(&m.default))
        }
        Expression::IsPattern(i) => format!("(is {} {})", one(&i.subject), pattern(&i.pattern)),
        Expression::Try(x) => format!("(? {})", one(x)),
        Expression::Unwrap(x) => format!("(! {})", one(x)),
        Expression::Catch { value, handler } => format!("(catch {} {})", one(value), one(handler)),
        Expression::MutArg(x) => format!("(mut {})", one(x)),
    }
}

fn fields(fs: &Vec<FieldDecl>) -> String {
    let v: Vec<String> = fs
        .iter()
        .map(|f| match &f.name {
            Some(n) => format!("{}:{}", n, f.ty.item.show()),
            None => f.ty.item.show(),
        })
        .collect();
    v.join(",")
}

fn pattern(p: &Pattern) -> String {
    let path = match &p.path {
        Some(x) => format!("{}.", x),
        None => "".to_string(),
    };
    format!("{}{}({})", path, p.variant, p.binds.join(","))
}

fn tree(src: &str) -> String {
    match Parser::parse(src) {
        Ok(n) => sx(&n.item),
        Err(es) => panic!("{}: {:?}", src, es.iter().map(|e| e.item.message()).collect::<Vec<_>>()),
    }
}

fn errors(src: &str) -> Vec<String> {
    match Parser::parse(src) {
        Ok(n) => panic!("{}: {}", src, sx(&n.item)),
        Err(es) => es.iter().map(|e| e.item.message()).collect(),
    }
}

#[test]
fn operators_bind_by_precedence() {
    assert_eq!(tree("1 + 2 * 3"), "{(+ 1 (* 2 3))}");
    assert_eq!(tree("1 - 2 - 3"), "{(- (- 1 2) 3)}");
    assert_eq!(tree("a or b and not c"), "{(or a (and b (not c)))}");
    assert_eq!(tree("-a * b"), "{(* (- a) b)}");
    assert_eq!(tree("(1 + 2) * 3"), "{(* (+ 1 2) 3)}");
    assert_eq!(tree("a + 1 < b"), "{(< (+ a 1) b)}");
}

#[test]
fn statements_end_at_newlines_and_semicolons() {
    assert_eq!(tree("a\nb;c"), "{a b c}");
    assert_eq!(tree(""), "{}");
    assert_eq!(tree("\n\n"), "{}");
}

#[test]
fn bindings() {
    assert_eq!(tree("let x = 1"), "{(let x 1)}");
    assert_eq!(tree("mut y: Int = 2"), "{(mut y : Int 2)}");
    assert_eq!(tree("y = 3"), "{(set y 3)}");
    assert_eq!(tree("p.x = 3"), "{(set (. p x) 3)}");
    assert_eq!(tree("xs[0] = 3"), "{(set (at xs 0) 3)}");
}

#[test]
fn functions() {
    assert_eq!(tree("func f(x: Int, mut y: Str): Int = x + 1"), "{(let f (fn [x:Int mut y:Str] : Int (+ x 1)))}");
    assert_eq!(tree("let f = x -> x + 1"), "{(let f (fn [x] (+ x 1)))}");
    assert_eq!(tree("let f = (x, y) -> x + y"), "{(let f (fn [x y] (+ x y)))}");
    assert_eq!(tree("(\nx,\ny\n) -> x"), "{(fn [x y] x)}");
    assert_eq!(tree("f(1, mut a)"), "{(call f 1 (mut a))}");
    assert_eq!(tree("P(x=1, y=2)"), "{(call P (set x 1) (set y 2))}");
}

#[test]
fn a_comma_in_parentheses_is_for_lambdas() {
    let at_comma = |src: &str| {
        let es = Parser::parse(src).err().unwrap();
        es.iter().map(|e| (e.item.message(), e.span.start.col)).collect::<Vec<_>>()
    };
    let twice = at_comma("(1, 2)");
    assert_eq!(twice.len(), 2);
    assert_eq!(twice[0], twice[1]);
    assert_eq!(at_comma("(1, 2) -> 3").len(), 2);
    assert_eq!(at_comma("(a, b)"), at_comma("(a, 2) -> a"));
}

#[test]
fn conditionals_and_loops() {
    assert_eq!(tree("if a then 1 else 2"), "{(if a 1 2)}");
    assert_eq!(tree("if a then 1\nelse 2"), "{(if a 1 2)}");
    assert_eq!(tree("if a then 1"), "{(if a 1 -)}");
    assert_eq!(tree("if a then\n1\nelse\n2"), "{(if a 1 2)}");
    assert!(Parser::parse("if a\nthen 1").is_err());
    assert_eq!(tree("for i in 0..5 do { a = a + i }"), "{(for i (range 0 5) - (set a (+ a i)))}");
    assert_eq!(tree("for i in xs if i > 1 do f(i)"), "{(for i xs (> i 1) (call f i))}");
    assert_eq!(tree("[for x in xs do x * 2]"), "{(collect (for x xs - (* x 2)))}");
}

#[test]
fn lists_indices_and_slices() {
    assert_eq!(tree("[1, 2, 3]"), "{[1 2 3]}");
    assert_eq!(tree("xs[0]"), "{(at xs 0)}");
    assert_eq!(tree("xs[1..3]"), "{(slice xs 1 3)}");
    assert_eq!(tree("xs[..2]"), "{(slice xs - 2)}");
    assert_eq!(tree("xs[1..]"), "{(slice xs 1 -)}");
}

#[test]
fn declarations_of_data() {
    assert_eq!(tree("data P(x: Int, y: Int)"), "{(data P (x:Int,y:Int)  provides )}");
    assert_eq!(
        tree("data Shape is Circle(r: Int) | Dot"),
        "{(data Shape () Circle(r:Int)|Dot() provides )}"
    );
    assert_eq!(tree("data E(msg: Str) provides Error"), "{(data E (msg:Str)  provides Error)}");
}

#[test]
fn matching() {
    assert_eq!(
        tree("match s {\nis Circle(r) then r\nis Shape.Dot then 0\nelse 1\n}"),
        "{(match s (Circle(r) - r) (Shape.Dot() - 0) 1)}"
    );
    assert_eq!(tree("match s {\nis\nDot then\n0\n}"), "{(match s (Dot() - 0) -)}");
    assert!(Parser::parse("match s\n{\nis Dot then 0\n}").is_err());
    assert!(Parser::parse("match s {\nis Dot\nthen 0\n}").is_err());
    assert_eq!(tree("s is Circle(r)"), "{(is s Circle(r))}");
}

#[test]
fn errors_as_values() {
    assert_eq!(tree("f(1)?"), "{(? (call f 1))}");
    assert_eq!(tree("f(1)!"), "{(! (call f 1))}");
    assert_eq!(tree("f(1) catch 0"), "{(catch (call f 1) 0)}");
}

#[test]
fn imports() {
    assert_eq!(tree("import \"./a.frog\" { x, y }"), "{(import ./a.frog x,y)}");
    assert_eq!(tree("import \"./a.frog\" as a"), "{(import ./a.frog as a)}");
}

#[test]
fn types_are_written_back() {
    assert_eq!(tree("let x: Int | Str = 1"), "{(let x : Int | Str 1)}");
    assert_eq!(tree("let x: Int? = none"), "{(let x : Int? none)}");
    assert_eq!(tree("let f: (Int, Int -> Bool) = g"), "{(let f : (Int, Int -> Bool) g)}");
}

#[test]
fn each_error_has_a_cause() {
    assert_eq!(errors("1 +")[0], "expected an expression");
    assert_eq!(errors("let 1 = 2")[0], "expected an identifier");
    assert_eq!(errors("(1")[0], "expected ), found end of input".replace("end of input", &Token::EOF.show()));
    assert_eq!(errors("1 @ 2")[0], "unexpected character");
    assert_eq!(errors("1 + 2 = 3")[0], "invalid assignment target");
    assert_eq!(errors("let f: Int -> Int = g")[0], "a function type needs parentheses, e.g. `(A -> B)`");
    assert_eq!(ParseError::ExpectedOperator.message(), "expected an operator");
    assert_eq!(ParseError::Other("x".to_string()).message(), "x");
}

#[test]
fn spans_cover_what_they_stand_for() {
    let n = Parser::parse("ab + c").unwrap();
    let Expression::Block(es) = &n.item else { panic!("a block") };
    assert_eq!(es[0].span, Span::new((0, 0), (0, 6)));
    let Expression::Binary(b) = &es[0].item else { panic!("a sum") };
    assert_eq!(b.right.span, Span::new((0, 5), (0, 6)));
}

#[test]
fn an_expression_shows_its_parts_with_their_places() {
    let n = Parser::parse("\"a\\\"b\" + c").unwrap();
    let Expression::Block(es) = n.item else { panic!("a block") };
    let shown = es[0].item.show();
    assert!(shown.contains("String(\"a\\\"b\")"), "{}", shown);
    assert!(shown.starts_with('('), "{}", shown);
}

#[test]
fn the_end_has_the_lowest_precedence() {
    assert_eq!(Grammar::get_parse_rule(&Token::EOF).precedence, Precedence::Lowest);
    assert!(Precedence::Lowest.rank() < Precedence::Lowest.next().rank());
}

#[test]
fn names_in_types_are_read_and_written_in_order() {
    let n = Parser::parse("let x: (A, List<B> -> C?) = f").unwrap();
    let Expression::Block(es) = n.item else { panic!("a block") };
    let Expression::Assign(a) = es.into_iter().next().unwrap().item else { panic!("a binding") };
    let mut t: TypeExpr = a.typ.unwrap().item;
    assert_eq!(t.names(), vec!["A", "List", "B", "C"]);
    t.names_mut(&vec!["W".to_string(), "X".to_string(), "Y".to_string(), "Z".to_string()]);
    assert_eq!(t.names(), vec!["W", "X", "Y", "Z"]);
    assert_eq!(t.show(), "(W, X(Y) -> Z?)");
}

#[test]
fn floats_are_inspected_as_numbers() {
    let shown = Parser::parse("1.50\n100.0\n0.0001\n1e-5\n2.5e-7\n1e16\n1e15\n0.0").ok().unwrap().item.show();
    for text in ["1.5", "100.0", "0.0001", "1e-5", "2.5e-7", "1e16", "1000000000000000.0", "0.0"] {
        assert_eq!(format!("{:?}", text.parse::<f64>().unwrap()), text);
        assert!(shown.contains(&format!("Float({})", text)), "{} in {}", text, shown);
    }
}
