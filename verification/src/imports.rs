//! What names stand for in a program that is put together from several files.
use crate::expression::Node;
use crate::mention::{every_reference_follows, image, images, names_in_all, names_in_node, node_mentions, Mention};
use crate::modules::{
    bound_names, closed_file, conflict, declared_by, imported, mangle_all, mangled, rename_tops, ResolverView,
};
use crate::rename::{becomes, rename_node, Pairs, RenamesView};
use vstd::prelude::*;

verus! {

/// A name found later decides.
proof fn later_decides(a: Pairs, b: Pairs, n: Seq<char>)
    ensures
        becomes(a + b, n) == match becomes(b, n) {
            Some(to) => Some(to),
            None => becomes(a, n),
        },
    decreases b.len(),
{
    if b.len() > 0 {
        assert((a + b).drop_last() =~= a + b.drop_last());
        assert((a + b).last() == b.last());
        later_decides(a, b.drop_last(), n);
    } else {
        assert(a + b =~= a);
    }
}

/// Every name that a file declares, and no other, gets a new one, which says the
/// file's number and the name.
pub proof fn every_declared_name_gets_its_own(k: nat, names: Seq<Seq<char>>, n: Seq<char>)
    ensures
        becomes(mangle_all(k, names), n) == if names.contains(n) {
            Some(mangled(k, n))
        } else {
            None
        },
    decreases names.len(),
{
    if names.len() > 0 {
        let front = names.drop_last();
        every_declared_name_gets_its_own(k, front, n);
        assert(mangle_all(k, names).drop_last() =~= mangle_all(k, front));
        assert(mangle_all(k, names).last() == (names.last(), mangled(k, names.last())));
        if names.contains(n) && n != names.last() {
            let i = choose|i: int| 0 <= i < names.len() && names[i] == n;
            assert(front[i] == n);
        }
        if front.contains(n) {
            let i = choose|i: int| 0 <= i < front.len() && front[i] == n;
            assert(names[i] == n);
        }
        assert(names[names.len() - 1] == names.last());
    }
}

/// Whether `names` can be imported: the file has each of them, and none is there
/// already or twice.
pub open spec fn importable(cx: RenamesView, names: Seq<Seq<char>>, exports: Pairs) -> bool {
    &&& forall|i: int| 0 <= i < names.len() ==> becomes(exports, #[trigger] names[i]) is Some
    &&& forall|i: int| 0 <= i < names.len() ==> !imported(cx, #[trigger] names[i])
    &&& forall|i: int, j: int| 0 <= i < j < names.len() ==> #[trigger] names[i] != #[trigger] names[j]
}

/// An import by names succeeds exactly where they can be imported. After it each
/// of them stands for what the imported file calls it, and every other name for
/// what it stood for before.
pub proof fn an_import_brings_in_what_it_names(
    cx: RenamesView,
    names: Seq<Seq<char>>,
    exports: Pairs,
    target: Seq<char>,
    path: Seq<char>,
)
    ensures
        bound_names(cx, names, exports, target, path) is Ok <==> importable(cx, names, exports),
        bound_names(cx, names, exports, target, path) matches Ok(after) ==> after.qualified == cx.qualified && forall|
            n: Seq<char>,
        |
            #[trigger] becomes(after.subst, n) == if names.contains(n) {
                becomes(exports, n)
            } else {
                becomes(cx.subst, n)
            },
    decreases names.len(),
{
    if names.len() > 0 {
        let front = names.drop_last();
        let last = names.last();
        an_import_brings_in_what_it_names(cx, front, exports, target, path);
        assert(names[names.len() - 1] == last);
        assert forall|n: Seq<char>| #[trigger] names.contains(n) <==> front.contains(n) || n == last by {
            if names.contains(n) {
                let i = choose|i: int| 0 <= i < names.len() && names[i] == n;
                if i < front.len() {
                    assert(front[i] == n);
                }
            }
            if front.contains(n) {
                let i = choose|i: int| 0 <= i < front.len() && front[i] == n;
                assert(names[i] == n);
            }
        }
        if importable(cx, names, exports) {
            assert forall|i: int| 0 <= i < front.len() implies becomes(exports, #[trigger] front[i]) is Some && !imported(
                cx,
                front[i],
            ) by {
                assert(names[i] == front[i]);
            }
            assert forall|i: int, j: int| 0 <= i < j < front.len() implies #[trigger] front[i] != #[trigger] front[j] by {
                assert(names[i] != names[j]);
            }
            assert(importable(cx, front, exports));
            if front.contains(last) {
                let i = choose|i: int| 0 <= i < front.len() && front[i] == last;
                assert(names[i] != names[names.len() - 1]);
            }
        }
        if let Ok(before) = bound_names(cx, front, exports, target, path) {
            assert(becomes(before.subst, last) == if front.contains(last) {
                becomes(exports, last)
            } else {
                becomes(cx.subst, last)
            });
            if let Ok(after) = bound_names(cx, names, exports, target, path) {
                let to = becomes(exports, last)->0;
                assert(after.subst == before.subst.push((last, to)));
                assert(after.subst.drop_last() =~= before.subst);
                assert forall|n: Seq<char>| #[trigger] becomes(after.subst, n) == if names.contains(n) {
                    becomes(exports, n)
                } else {
                    becomes(cx.subst, n)
                } by {
                    assert(becomes(before.subst, n) == if front.contains(n) {
                        becomes(exports, n)
                    } else {
                        becomes(cx.subst, n)
                    });
                }
                assert(importable(cx, names, exports)) by {
                    assert forall|i: int| 0 <= i < names.len() implies becomes(exports, #[trigger] names[i]) is Some
                        && !imported(cx, names[i]) by {
                        if i < front.len() {
                            assert(names[i] == front[i]);
                        }
                    }
                    assert forall|i: int, j: int| 0 <= i < j < names.len() implies #[trigger] names[i]
                        != #[trigger] names[j] by {
                        assert(names[i] == front[i]);
                        if j < front.len() {
                            assert(names[j] == front[j]);
                        } else {
                            assert(front.contains(front[i]));
                        }
                    }
                }
            }
        }
    }
}

/// A file is refused for a conflict exactly where it declares a name that it
/// also imports.
pub proof fn a_conflict_is_a_name_declared_and_imported(names: Seq<Seq<char>>, cx: RenamesView)
    ensures
        conflict(names, cx) is Some <==> exists|i: int| 0 <= i < names.len() && imported(cx, #[trigger] names[i]),
        conflict(names, cx) matches Some(n) ==> names.contains(n) && imported(cx, n),
    decreases names.len(),
{
    if names.len() > 0 {
        let front = names.drop_last();
        a_conflict_is_a_name_declared_and_imported(front, cx);
        assert(names[names.len() - 1] == names.last());
        if let Some(n) = conflict(front, cx) {
            let i = choose|i: int| 0 <= i < front.len() && front[i] == n;
            assert(names[i] == n);
        } else if exists|i: int| 0 <= i < names.len() && imported(cx, #[trigger] names[i]) {
            let i = choose|i: int| 0 <= i < names.len() && imported(cx, #[trigger] names[i]);
            if i < front.len() {
                assert(front[i] == names[i]);
            }
        }
    }
}

/// What the statements of a file mention, but for its imports.
pub open spec fn tops_mention(ns: Seq<Node>, cx: RenamesView) -> Seq<Mention>
    decreases ns.len(),
{
    if ns.len() == 0 {
        Seq::empty()
    } else if ns.last().item is Import {
        tops_mention(ns.drop_last(), cx)
    } else {
        tops_mention(ns.drop_last(), cx) + node_mentions(ns.last(), cx, Set::empty(), false).0
    }
}

/// How many statements of a file are no imports.
pub open spec fn no_imports(ns: Seq<Node>) -> nat
    decreases ns.len(),
{
    if ns.len() == 0 {
        0
    } else {
        no_imports(ns.drop_last()) + if ns.last().item is Import {
            0nat
        } else {
            1nat
        }
    }
}

/// What is put out of a file is its statements but for the imports, in order,
/// with every name in them replaced by what is to stand for it.
pub proof fn statements_are_put_out_renamed(ns: Seq<Node>, cx: RenamesView)
    ensures
        rename_tops(ns, cx).len() == no_imports(ns),
        names_in_all(rename_tops(ns, cx)) == images(tops_mention(ns, cx), cx),
    decreases ns.len(),
{
    if ns.len() == 0 {
        assert(images(tops_mention(ns, cx), cx) =~= Seq::empty());
    } else {
        let front = ns.drop_last();
        let last = ns.last();
        statements_are_put_out_renamed(front, cx);
        if !(last.item is Import) {
            every_reference_follows(last.item, cx, Set::empty(), false);
            let new = rename_node(last, cx, Set::empty(), false).0;
            let done = rename_tops(front, cx);
            assert(rename_tops(ns, cx) == done.push(new));
            assert(done.push(new).drop_last() =~= done);
            let a = tops_mention(front, cx);
            let b = node_mentions(last, cx, Set::empty(), false).0;
            assert(images(a + b, cx) =~= images(a, cx) + images(b, cx));
            assert(names_in_node(new) == images(b, cx));
        }
    }
}

/// When a file other than the entry is closed, a name that it declares stands
/// for the new name of its own, a name that it imports for what that is called
/// where it comes from, and any other for itself; and with those its statements
/// are put out, after all that were put out before.
pub proof fn names_of_a_closed_file(r: ResolverView, n: Seq<char>)
    requires
        r.frames.len() > 1,
        closed_file(r) is Ok,
    ensures
        ({
            let f = r.frames.last();
            let names = declared_by(f.stmts);
            let own = mangle_all(r.modules.len(), names);
            let cx = RenamesView { subst: own + f.renames.subst, ..f.renames };
            let after = closed_file(r)->Ok_0;
            &&& image(Mention::Own(n), cx) == match becomes(f.renames.subst, n) {
                Some(to) => to,
                None => if names.contains(n) {
                    mangled(r.modules.len(), n)
                } else {
                    n
                },
            }
            &&& names.contains(n) ==> becomes(f.renames.subst, n) is None
            &&& after.output.len() == r.output.len() + no_imports(f.stmts)
            &&& after.output.take(r.output.len() as int) == r.output
            &&& names_in_all(after.output.skip(r.output.len() as int)) == images(tops_mention(f.stmts, cx), cx)
            &&& after.modules == r.modules.push((f.path, own))
        }),
{
    let f = r.frames.last();
    let names = declared_by(f.stmts);
    let own = mangle_all(r.modules.len(), names);
    let cx = RenamesView { subst: own + f.renames.subst, ..f.renames };
    let after = closed_file(r)->Ok_0;
    a_conflict_is_a_name_declared_and_imported(names, f.renames);
    every_declared_name_gets_its_own(r.modules.len(), names, n);
    later_decides(own, f.renames.subst, n);
    statements_are_put_out_renamed(f.stmts, cx);
    assert(after.output.take(r.output.len() as int) =~= r.output);
    assert(after.output.skip(r.output.len() as int) =~= rename_tops(f.stmts, cx));
    if names.contains(n) {
        let i = choose|i: int| 0 <= i < names.len() && names[i] == n;
        assert(!imported(f.renames, names[i]));
    }
}

} // verus!
