//! Strings as sequences of characters, and ordered sets of names.
use vstd::prelude::*;
use vstd::string::StringExecFns;

verus! {

/// `String::push`: appends one character and keeps all earlier ones.
pub assume_specification[ std::string::String::push ](s: &mut std::string::String, c: char)
    ensures
        final(s)@ == old(s)@.push(c),
;

/// The characters of a string, in order.
pub fn chars_of(s: &str) -> (r: Vec<char>)
    ensures
        r@ == s@,
{
    let mut out: Vec<char> = Vec::new();
    for c in it: s.chars()
        invariant
            out@ =~= s@.take(it.index()),
            it.seq() == s@,
    {
        out.push(c);
    }
    assert(s@.take(s@.len() as int) =~= s@);
    out
}

/// The string made of the characters `cs[from..to]`.
pub fn string_of(cs: &Vec<char>, from: usize, to: usize) -> (r: String)
    requires
        from <= to <= cs.len(),
    ensures
        r@ == cs@.subrange(from as int, to as int),
{
    let mut out = String::new();
    let mut i: usize = from;
    while i < to
        invariant
            from <= i <= to <= cs.len(),
            out@ == cs@.subrange(from as int, i as int),
        decreases to - i,
    {
        out.push(cs[i]);
        i = i + 1;
        assert(cs@.subrange(from as int, i as int).drop_last() =~= cs@.subrange(from as int, i - 1));
    }
    out
}

/// Owned copy of a string slice.
pub fn owned(s: &str) -> (r: String)
    ensures
        r@ == s@,
{
    String::from_str(s)
}

/// Whether two strings hold the same characters.
pub fn same_text(a: &str, b: &str) -> (r: bool)
    ensures
        r == (a@ == b@),
{
    let x = chars_of(a);
    let y = chars_of(b);
    if x.len() != y.len() {
        return false;
    }
    let mut i: usize = 0;
    while i < x.len()
        invariant
            i <= x.len(),
            x.len() == y.len(),
            x@ == a@,
            y@ == b@,
            forall|k: int| 0 <= k < i ==> x@[k] == y@[k],
        decreases x.len() - i,
    {
        if x[i] != y[i] {
            return false;
        }
        i = i + 1;
    }
    assert(a@ =~= b@);
    true
}

/// The code of a character.
pub fn code(c: char) -> (r: u32)
    ensures
        r as int == c as int,
{
    c as u32
}

/// Lexicographic order of texts by character code.
pub open spec fn text_lt(a: Seq<char>, b: Seq<char>) -> bool
    decreases a.len(),
{
    if b.len() == 0 {
        false
    } else if a.len() == 0 {
        true
    } else if a[0] != b[0] {
        (a[0] as int) < (b[0] as int)
    } else {
        text_lt(a.skip(1), b.skip(1))
    }
}

pub proof fn text_lt_irreflexive(a: Seq<char>)
    ensures
        !text_lt(a, a),
    decreases a.len(),
{
    if a.len() > 0 {
        text_lt_irreflexive(a.skip(1));
    }
}

pub proof fn text_lt_transitive(a: Seq<char>, b: Seq<char>, c: Seq<char>)
    requires
        text_lt(a, b),
        text_lt(b, c),
    ensures
        text_lt(a, c),
    decreases a.len(),
{
    if a.len() > 0 && a[0] == b[0] && b[0] == c[0] {
        text_lt_transitive(a.skip(1), b.skip(1), c.skip(1));
    }
}

pub proof fn text_lt_total(a: Seq<char>, b: Seq<char>)
    ensures
        a == b || text_lt(a, b) || text_lt(b, a),
    decreases a.len(),
{
    if a.len() > 0 && b.len() > 0 && a[0] == b[0] {
        text_lt_total(a.skip(1), b.skip(1));
        if a.skip(1) == b.skip(1) {
            assert(a =~= seq![a[0]] + a.skip(1));
            assert(b =~= seq![b[0]] + b.skip(1));
        }
    } else if a.len() == 0 && b.len() == 0 {
        assert(a =~= b);
    }
}

/// Whether `a` comes strictly before `b` in the order of `text_lt`.
pub fn text_less(a: &str, b: &str) -> (r: bool)
    ensures
        r == text_lt(a@, b@),
{
    let x = chars_of(a);
    let y = chars_of(b);
    let mut i: usize = 0;
    proof {
        assert(x@.skip(0) =~= a@);
        assert(y@.skip(0) =~= b@);
    }
    while i < x.len() && i < y.len()
        invariant
            i <= x.len(),
            i <= y.len(),
            x@ == a@,
            y@ == b@,
            text_lt(a@, b@) == text_lt(x@.skip(i as int), y@.skip(i as int)),
        decreases x.len() - i,
    {
        let p: char = x[i];
        let q: char = y[i];
        if p != q {
            return code(p) < code(q);
        }
        proof {
            assert(x@.skip(i as int).skip(1) =~= x@.skip(i + 1));
            assert(y@.skip(i as int).skip(1) =~= y@.skip(i + 1));
        }
        i = i + 1;
    }
    i < y.len()
}

/// Texts in strictly increasing order, so that no text occurs twice.
pub open spec fn increasing(s: Seq<Seq<char>>) -> bool {
    forall|i: int, j: int| 0 <= i < j < s.len() ==> #[trigger] text_lt(#[trigger] s[i], #[trigger] s[j])
}

/// The views of a run of strings.
pub open spec fn texts(s: Seq<String>) -> Seq<Seq<char>> {
    s.map_values(|x: String| x@)
}

/// A set of names, kept in increasing order.
pub struct NameSet {
    names: Vec<String>,
}

impl NameSet {
    /// The names in increasing order.
    pub closed spec fn sorted(self) -> Seq<Seq<char>> {
        texts(self.names@)
    }

    /// The set that the names make up.
    pub open spec fn set(self) -> Set<Seq<char>> {
        self.sorted().to_set()
    }

    #[verifier::type_invariant]
    spec fn ordered(self) -> bool {
        increasing(texts(self.names@))
    }

    /// The empty set.
    pub fn empty() -> (r: NameSet)
        ensures
            r.sorted() == Seq::<Seq<char>>::empty(),
            r.set() == Set::<Seq<char>>::empty(),
    {
        let r = NameSet { names: Vec::new() };
        assert(r.sorted() =~= Seq::<Seq<char>>::empty());
        assert(r.set() =~= Set::<Seq<char>>::empty());
        r
    }

    /// Membership.
    pub fn contains(&self, name: &str) -> (r: bool)
        ensures
            r == self.set().contains(name@),
    {
        let mut i: usize = 0;
        while i < self.names.len()
            invariant
                i <= self.names.len(),
                forall|k: int| 0 <= k < i ==> self.names@[k]@ != name@,
            decreases self.names.len() - i,
        {
            if same_text(self.names[i].as_str(), name) {
                assert(self.sorted()[i as int] == name@);
                return true;
            }
            i = i + 1;
        }
        assert forall|k: int| 0 <= k < self.sorted().len() implies self.sorted()[k] != name@ by {}
        false
    }

    /// A copy of this set.
    pub fn copied(&self) -> (r: NameSet)
        ensures
            r.sorted() == self.sorted(),
            r.set() == self.set(),
    {
        proof {
            use_type_invariant(self);
        }
        let names = copy_strings(&self.names);
        NameSet { names }
    }

    /// This set with `name` added.
    pub fn with(&self, name: &str) -> (r: NameSet)
        ensures
            r.set() == self.set().insert(name@),
    {
        proof {
            use_type_invariant(self);
        }
        let mut out: Vec<String> = Vec::new();
        let n: usize = self.names.len();
        let mut i: usize = 0;
        while i < n && text_less(self.names[i].as_str(), name)
            invariant
                i <= n == self.names.len(),
                texts(out@) =~= texts(self.names@).take(i as int),
                forall|k: int| 0 <= k < i ==> text_lt(#[trigger] texts(self.names@)[k], name@),
            decreases n - i,
        {
            let ghost before = out@;
            out.push(self.names[i].clone());
            proof {
                assert(texts(out@) =~= texts(before).push(self.names@[i as int]@));
            }
            i = i + 1;
        }
        let ghost all = texts(self.names@);
        if i < n && same_text(self.names[i].as_str(), name) {
            let r = self.copied();
            proof {
                assert(r.sorted()[i as int] == name@);
                assert(r.set() =~= self.set().insert(name@));
            }
            return r;
        }
        out.push(owned(name));
        let ghost cut = i as int;
        while i < n
            invariant
                0 <= cut <= i <= n == self.names.len(),
                all == texts(self.names@),
                texts(out@) =~= all.take(cut).push(name@) + all.subrange(cut, i as int),
            decreases n - i,
        {
            let ghost before = out@;
            out.push(self.names[i].clone());
            proof {
                assert(texts(out@) =~= texts(before).push(self.names@[i as int]@));
                assert(all.subrange(cut, i + 1) =~= all.subrange(cut, i as int).push(all[i as int]));
            }
            i = i + 1;
        }
        proof {
            let res = texts(out@);
            assert(res =~= all.take(cut).push(name@) + all.skip(cut));
            assert forall|a: int, b: int| 0 <= a < b < res.len() implies #[trigger] text_lt(#[trigger] res[a], #[trigger] res[b]) by {
                assert(cut < n ==> text_lt(name@, all[cut])) by {
                    if cut < n {
                        text_lt_total(name@, all[cut]);
                    }
                }
                let x: int = if a < cut { a } else { a - 1 };
                let y: int = if b < cut { b } else { b - 1 };
                if a == cut {
                    assert(res[b] == all[y]);
                    if y > cut {
                        assert(text_lt(all[cut], all[y]));
                        text_lt_transitive(name@, all[cut], all[y]);
                    }
                } else if b == cut {
                    assert(res[a] == all[x]);
                } else {
                    assert(res[a] == all[x] && res[b] == all[y]);
                    assert(text_lt(all[x], all[y]));
                }
            }
            assert(res.to_set() =~= all.to_set().insert(name@)) by {
                assert forall|t: Seq<char>| res.to_set().contains(t) == all.to_set().insert(name@).contains(t) by {
                    if all.contains(t) {
                        let k = choose|k: int| 0 <= k < all.len() && all[k] == t;
                        let m: int = if k < cut { k } else { k + 1 };
                        assert(res[m] == t);
                    }
                    if res.contains(t) {
                        let m = choose|m: int| 0 <= m < res.len() && res[m] == t;
                        if m != cut {
                            let k: int = if m < cut { m } else { m - 1 };
                            assert(all[k] == t);
                        }
                    }
                    assert(res[cut] == name@);
                }
            }
        }
        NameSet { names: out }
    }

    /// This set with `name` taken out.
    pub fn without(&self, name: &str) -> (r: NameSet)
        ensures
            r.set() == self.set().remove(name@),
    {
        proof {
            use_type_invariant(self);
        }
        let ghost all = texts(self.names@);
        let mut out: Vec<String> = Vec::new();
        let n: usize = self.names.len();
        let mut i: usize = 0;
        while i < n
            invariant
                i <= n == self.names.len(),
                all == texts(self.names@),
                increasing(all),
                increasing(texts(out@)),
                forall|a: int, b: int| 0 <= a < out.len() && i <= b < n ==> text_lt(#[trigger] texts(out@)[a], #[trigger] all[b]),
                forall|t: Seq<char>| #[trigger] texts(out@).contains(t) <==> (t != name@ && all.take(i as int).contains(t)),
            decreases n - i,
        {
            let ghost before = texts(out@);
            proof {
                assert(all.take(i + 1) =~= all.take(i as int).push(all[i as int]));
            }
            if !same_text(self.names[i].as_str(), name) {
                out.push(self.names[i].clone());
                proof {
                    assert(texts(out@) =~= before.push(all[i as int]));
                    assert forall|t: Seq<char>| #[trigger] texts(out@).contains(t) <==> (t != name@ && all.take(i + 1).contains(t)) by {
                        push_contains(before, all[i as int], t);
                        push_contains(all.take(i as int), all[i as int], t);
                        assert(before.contains(t) <==> (t != name@ && all.take(i as int).contains(t)));
                    }
                    assert forall|a: int, b: int| 0 <= a < b < texts(out@).len() implies #[trigger] text_lt(#[trigger] texts(out@)[a], #[trigger] texts(out@)[b]) by {
                        if b < before.len() {
                            assert(text_lt(before[a], before[b]));
                        } else {
                            assert(text_lt(before[a], all[i as int]));
                        }
                    }
                    assert forall|a: int, b: int| 0 <= a < out.len() && i + 1 <= b < n implies text_lt(#[trigger] texts(out@)[a], #[trigger] all[b]) by {
                        if a < before.len() {
                            assert(text_lt(before[a], all[b]));
                        } else {
                            assert(text_lt(all[i as int], all[b]));
                        }
                    }
                }
            } else {
                proof {
                    assert forall|t: Seq<char>| #[trigger] texts(out@).contains(t) <==> (t != name@ && all.take(i + 1).contains(t)) by {
                        push_contains(all.take(i as int), all[i as int], t);
                    }
                }
            }
            i = i + 1;
        }
        let r = NameSet { names: out };
        proof {
            assert(all.take(n as int) =~= all);
            assert(r.set() =~= self.set().remove(name@)) by {
                assert forall|t: Seq<char>| r.set().contains(t) == self.set().remove(name@).contains(t) by {
                    assert(texts(out@).contains(t) <==> (t != name@ && all.take(n as int).contains(t)));
                }
            }
        }
        r
    }

    /// The union of two sets.
    pub fn union(&self, other: &NameSet) -> (r: NameSet)
        ensures
            r.set() == self.set().union(other.set()),
    {
        let mut out = self.copied();
        let mut i: usize = 0;
        while i < other.names.len()
            invariant
                i <= other.names.len(),
                out.set() =~= self.set().union(other.sorted().take(i as int).to_set()),
            decreases other.names.len() - i,
        {
            let ghost before = out.set();
            out = out.with(other.names[i].as_str());
            proof {
                let s = other.sorted();
                assert(s.take(i + 1) =~= s.take(i as int).push(s[i as int]));
                assert forall|t: Seq<char>| out.set().contains(t) == self.set().union(s.take(i + 1).to_set()).contains(t) by {
                    push_contains(s.take(i as int), s[i as int], t);
                }
            }
            i = i + 1;
        }
        assert(other.sorted().take(i as int) =~= other.sorted());
        out
    }

    /// Whether two sets have the same members.
    pub fn same(&self, other: &NameSet) -> (r: bool)
        ensures
            r == (self.set() == other.set()),
    {
        let r = self.within(other) && other.within(self);
        proof {
            if r {
                assert(self.set() =~= other.set());
            }
        }
        r
    }

    /// Whether every member of this set is a member of `other`.
    pub fn within(&self, other: &NameSet) -> (r: bool)
        ensures
            r == self.set().subset_of(other.set()),
    {
        let mut i: usize = 0;
        while i < self.names.len()
            invariant
                i <= self.names.len(),
                forall|k: int| 0 <= k < i ==> other.set().contains(#[trigger] self.sorted()[k]),
            decreases self.names.len() - i,
        {
            if !other.contains(self.names[i].as_str()) {
                proof {
                    assert(self.sorted()[i as int] == self.names@[i as int]@);
                    assert(self.set().contains(self.sorted()[i as int]));
                }
                return false;
            }
            assert(self.sorted()[i as int] == self.names@[i as int]@);
            i = i + 1;
        }
        true
    }

    /// The members of this set that are not members of `other`, in
    /// increasing order.
    pub fn minus(&self, other: &NameSet) -> (r: Vec<String>)
        ensures
            increasing(texts(r@)),
            texts(r@).to_set() == self.set().difference(other.set()),
    {
        proof {
            use_type_invariant(self);
        }
        let ghost all = texts(self.names@);
        let mut out: Vec<String> = Vec::new();
        let n: usize = self.names.len();
        let mut i: usize = 0;
        while i < n
            invariant
                i <= n == self.names.len(),
                all == texts(self.names@),
                increasing(all),
                increasing(texts(out@)),
                forall|a: int, b: int| 0 <= a < out.len() && i <= b < n ==> text_lt(#[trigger] texts(out@)[a], #[trigger] all[b]),
                forall|t: Seq<char>| #[trigger] texts(out@).contains(t) <==> (!other.set().contains(t) && all.take(i as int).contains(t)),
            decreases n - i,
        {
            let ghost before = texts(out@);
            proof {
                assert(all.take(i + 1) =~= all.take(i as int).push(all[i as int]));
            }
            if !other.contains(self.names[i].as_str()) {
                out.push(self.names[i].clone());
                proof {
                    assert(texts(out@) =~= before.push(all[i as int]));
                    assert forall|t: Seq<char>| #[trigger] texts(out@).contains(t) <==> (!other.set().contains(t) && all.take(i + 1).contains(t)) by {
                        push_contains(before, all[i as int], t);
                        push_contains(all.take(i as int), all[i as int], t);
                        assert(before.contains(t) <==> (!other.set().contains(t) && all.take(i as int).contains(t)));
                    }
                    assert forall|a: int, b: int| 0 <= a < b < texts(out@).len() implies #[trigger] text_lt(#[trigger] texts(out@)[a], #[trigger] texts(out@)[b]) by {
                        if b < before.len() {
                            assert(text_lt(before[a], before[b]));
                        } else {
                            assert(text_lt(before[a], all[i as int]));
                        }
                    }
                    assert forall|a: int, b: int| 0 <= a < out.len() && i + 1 <= b < n implies text_lt(#[trigger] texts(out@)[a], #[trigger] all[b]) by {
                        if a < before.len() {
                            assert(text_lt(before[a], all[b]));
                        } else {
                            assert(text_lt(all[i as int], all[b]));
                        }
                    }
                }
            } else {
                proof {
                    assert forall|t: Seq<char>| #[trigger] texts(out@).contains(t) <==> (!other.set().contains(t) && all.take(i + 1).contains(t)) by {
                        push_contains(all.take(i as int), all[i as int], t);
                    }
                }
            }
            i = i + 1;
        }
        proof {
            assert(all.take(n as int) =~= all);
            assert(texts(out@).to_set() =~= self.set().difference(other.set())) by {
                assert forall|t: Seq<char>| texts(out@).to_set().contains(t) == self.set().difference(other.set()).contains(t) by {
                    assert(texts(out@).contains(t) <==> (!other.set().contains(t) && all.take(n as int).contains(t)));
                }
            }
        }
        out
    }
}

proof fn push_contains<A>(s: Seq<A>, x: A, t: A)
    ensures
        s.push(x).contains(t) == (s.contains(t) || t == x),
{
    if s.contains(t) {
        let k = choose|k: int| 0 <= k < s.len() && s[k] == t;
        assert(s.push(x)[k] == t);
    }
    assert(s.push(x)[s.len() as int] == x);
    if s.push(x).contains(t) && t != x {
        let k = choose|k: int| 0 <= k < s.push(x).len() && s.push(x)[k] == t;
        assert(s[k] == t);
    }
}

/// A copy of a run of strings.
pub fn copy_strings(v: &Vec<String>) -> (r: Vec<String>)
    ensures
        r@ == v@,
{
    let mut out: Vec<String> = Vec::new();
    let mut i: usize = 0;
    while i < v.len()
        invariant
            i <= v.len(),
            out@ =~= v@.take(i as int),
        decreases v.len() - i,
    {
        out.push(v[i].clone());
        i = i + 1;
    }
    assert(v@.take(v@.len() as int) =~= v@);
    out
}


/// The decimal digit `d`.
pub open spec fn digit_char(d: int) -> char {
    if d == 0 {
        '0'
    } else if d == 1 {
        '1'
    } else if d == 2 {
        '2'
    } else if d == 3 {
        '3'
    } else if d == 4 {
        '4'
    } else if d == 5 {
        '5'
    } else if d == 6 {
        '6'
    } else if d == 7 {
        '7'
    } else if d == 8 {
        '8'
    } else {
        '9'
    }
}

/// `n` in decimal notation, without leading zeros.
pub open spec fn decimal(n: nat) -> Seq<char>
    decreases n,
{
    if n < 10 {
        seq![digit_char(n as int)]
    } else {
        decimal(n / 10).push(digit_char((n % 10) as int))
    }
}

fn digit_of(d: u64) -> (r: char)
    requires
        d < 10,
    ensures
        r == digit_char(d as int),
{
    if d == 0 {
        '0'
    } else if d == 1 {
        '1'
    } else if d == 2 {
        '2'
    } else if d == 3 {
        '3'
    } else if d == 4 {
        '4'
    } else if d == 5 {
        '5'
    } else if d == 6 {
        '6'
    } else if d == 7 {
        '7'
    } else if d == 8 {
        '8'
    } else {
        '9'
    }
}

/// Appends `n` in decimal notation.
pub fn push_decimal(out: &mut String, n: u64)
    ensures
        final(out)@ == old(out)@ + decimal(n as nat),
    decreases n,
{
    if n < 10 {
        out.push(digit_of(n));
        assert(out@ =~= old(out)@ + decimal(n as nat));
    } else {
        push_decimal(out, n / 10);
        out.push(digit_of(n % 10));
        assert(out@ =~= old(out)@ + decimal(n as nat));
    }
}

/// `n` in decimal notation.
pub fn decimal_of(n: usize) -> (r: String)
    ensures
        r@ == decimal(n as nat),
{
    let mut out = String::new();
    push_decimal(&mut out, n as u64);
    assert(out@ =~= decimal(n as nat));
    out
}

/// `a` followed by `b`.
pub fn joined(a: &str, b: &str) -> (r: String)
    ensures
        r@ == a@ + b@,
{
    let mut out = owned(a);
    out.append(b);
    out
}

} // verus!
