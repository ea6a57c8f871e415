use froglang_core::expression::Expression;
use froglang_core::modules::{collect_top_level_names, ModuleError, ModuleResolver, Step};
use froglang_core::parser::Parser;
use froglang_core::tokens::Spanned;

// Puts a program together from files that are at hand.
fn resolve(files: &[(&str, &str)], entry: &str) -> Result<Vec<Spanned<Expression>>, ModuleError> {
    let text = |path: &str| files.iter().find(|f| f.0 == path).map(|f| f.1);
    let mut r = ModuleResolver::start(text(entry).unwrap(), entry)?;
    loop {
        match r.next()? {
            Step::Done => return Ok(r.finish()),
            Step::Locate { importer: _, path } => {
                let canonical = path.trim_start_matches("./").to_string();
                if r.located(&path, &canonical)? {
                    match text(&canonical) {
                        Some(t) => r.loaded(&path, &canonical, t)?,
                        None => return Err(ModuleError::Io { path: canonical, message: "not found".to_string() }),
                    }
                }
            }
        }
    }
}

fn parsed(src: &str) -> Vec<Spanned<Expression>> {
    match Parser::parse(src).unwrap().item {
        Expression::Block(es) => es,
        _ => panic!("a block"),
    }
}

// The statements, without their places.
fn shape(es: &Vec<Spanned<Expression>>) -> Vec<String> {
    es.iter().map(|e| plain(&format!("{:?}", e.item))).collect()
}

// Text without the places in it.
fn plain(s: &str) -> String {
    let mut out = String::new();
    let mut rest = s;
    while let Some(i) = rest.find("span: Span {") {
        out.push_str(&rest[..i]);
        let tail = &rest[i..];
        let end = tail.find("} }").map(|k| k + 3).unwrap_or(tail.len());
        rest = &tail[end..];
    }
    out.push_str(rest);
    out
}

#[test]
fn one_file_is_left_alone() {
    let src = "let x = 1\nfunc f(y: Int): Int = x + y\nf(2)";
    let got = resolve(&[("main", src)], "main").unwrap();
    assert_eq!(got, parsed(src));
}

#[test]
fn an_imported_name_is_made_unique() {
    let got = resolve(
        &[("main", "import \"./a\" { x }\nx + 1"), ("a", "let x = 1\nlet y = x")],
        "main",
    )
    .unwrap();
    let want = parsed("let __mod0__x = 1\nlet __mod0__y = __mod0__x\n__mod0__x + 1");
    assert_eq!(shape(&got), shape(&want));
}

#[test]
fn a_module_under_an_alias() {
    let got = resolve(
        &[("main", "import \"./a\" as a\nlet p: a.P = a.mk(1)\na"), ("a", "data P(x: Int)\nfunc mk(x: Int): P = P(x=x)")],
        "main",
    )
    .unwrap();
    let want = parsed(
        "data __mod0__P(x: Int)\nfunc __mod0__mk(x: Int): __mod0__P = __mod0__P(x=x)\nlet p: __mod0__P = __mod0__mk(1)\na",
    );
    assert_eq!(shape(&got), shape(&want));
}

#[test]
fn local_names_are_not_renamed() {
    let got = resolve(
        &[
            ("main", "import \"./a\" { f }\nf(1)"),
            ("a", "let x = 1\nfunc f(x: Int): Int = x\nfunc g(): Int = {\nlet x = 2\nx\n}\nfor x in 0..2 do x\nx"),
        ],
        "main",
    )
    .unwrap();
    let want = parsed(
        "let __mod0__x = 1\nfunc __mod0__f(x: Int): Int = x\nfunc __mod0__g(): Int = {\nlet x = 2\nx\n}\nfor x in 0..2 do x\n__mod0__x\n__mod0__f(1)",
    );
    assert_eq!(shape(&got), shape(&want));
}

#[test]
fn patterns_bind_locally() {
    let got = resolve(
        &[
            ("main", "import \"./a\" { Circle, r }\nmatch s {\nis Circle(r) then r\nelse r\n}"),
            ("a", "data Shape is Circle(n: Int)\nlet r = 1"),
        ],
        "main",
    )
    .unwrap();
    let want = parsed(
        "data __mod0__Shape is __mod0__Circle(n: Int)\nlet __mod0__r = 1\nmatch s {\nis __mod0__Circle(r) then r\nelse __mod0__r\n}",
    );
    assert_eq!(shape(&got), shape(&want));
}

#[test]
fn a_file_that_two_import_is_put_in_once() {
    let got = resolve(
        &[
            ("main", "import \"./a\" { x }\nimport \"./b\" { y }\nx + y"),
            ("a", "import \"./c\" { z }\nlet x = z"),
            ("b", "import \"./c\" { z }\nlet y = z"),
            ("c", "let z = 1"),
        ],
        "main",
    )
    .unwrap();
    let want = parsed(
        "let __mod0__z = 1\nlet __mod1__x = __mod0__z\nlet __mod2__y = __mod0__z\n__mod1__x + __mod2__y",
    );
    assert_eq!(shape(&got), shape(&want));
}

#[test]
fn a_cycle_is_refused() {
    let e = resolve(
        &[("main", "import \"./a\" { x }"), ("a", "import \"./b\" { y }\nlet x = y"), ("b", "import \"./a\" { x }\nlet y = x")],
        "main",
    )
    .unwrap_err();
    assert_eq!(e.message(), "import cycle detected: a -> b -> a");
}

#[test]
fn a_name_that_is_not_there_is_refused() {
    let e = resolve(&[("main", "import \"./a\" { y }"), ("a", "let x = 1")], "main").unwrap_err();
    assert_eq!(e.message(), "module './a' has no top-level name 'y' to import");
}

#[test]
fn a_name_declared_and_imported_is_refused() {
    let e = resolve(&[("main", "import \"./a\" { x }\nlet x = 2"), ("a", "let x = 1")], "main").unwrap_err();
    assert_eq!(e.message(), "'x' is both imported and declared at the top level of module 'main'");
}

#[test]
fn a_name_imported_twice_is_refused() {
    let e = resolve(&[("main", "import \"./a\" { x, x }"), ("a", "let x = 1")], "main").unwrap_err();
    assert_eq!(e.message(), "'x' is imported more than once in module 'main'");
}

#[test]
fn an_import_inside_something_is_refused() {
    let e = resolve(&[("main", "if true then { import \"./a\" { x } }")], "main").unwrap_err();
    assert_eq!(e.message(), "'import' is only allowed at the top level of a file (module 'main')");
}

#[test]
fn errors_in_a_file_are_listed_once() {
    let e = resolve(&[("main", "import \"./a\" { x }"), ("a", "let x = @")], "main").unwrap_err();
    let text = e.message();
    assert!(text.starts_with("parse error(s) in module 'a':\n  "), "{}", text);
    assert_eq!(text.matches("unexpected character").count(), 1, "{}", text);
}

#[test]
fn messages_of_files_and_annotations() {
    let e = ModuleError::Io { path: "p".to_string(), message: "gone".to_string() };
    assert_eq!(e.message(), "could not read module 'p': gone");
    let e = ModuleError::AnnotatedImport { path: "p".to_string() };
    assert_eq!(e.message(), "annotations are not supported on 'import' (module 'p')");
}

#[test]
fn declared_names_come_in_order() {
    let es = parsed("let a = 1\nif true then { let b = 2 }\ndata D is V | W\nfunc f(x: Int): Int = { let c = x\nc }");
    assert_eq!(collect_top_level_names(&es), vec!["a", "b", "D", "V", "W", "f"]);
}
