//! The post-processor: after every unit is lowered, each level of the tree
//! is sorted by name and every module's token set absorbs the token sets of
//! its descendants. The result is a pure function of the unordered set of
//! lowered declarations.
use vstd::prelude::*;
use vstd::seq_lib::group_to_multiset_ensures;

use crate::model::{Constant, DefEntry, Doc, Function, GlobalVariable, Ident, Module, Struct};
use crate::text::{lex_le, lemma_lex_le_total, lemma_lex_le_transitive, str_le};
use crate::views::{lemma_view_modules_index, lemma_view_modules_len, lemma_view_modules_push,
    view_doc, view_module, view_modules, DocV, ModuleV};

verus! {

broadcast use group_to_multiset_ensures, lemma_view_modules_len, lemma_view_modules_index, vstd::std_specs::vec::group_vec_axioms;

/// The sort key of a declaration: named entries compare lexicographically
/// and precede the single class of unnamed entries.
pub ghost struct KeyV {
    pub unnamed: bool,
    pub name: Seq<char>,
}

/// Total order over sort keys.
pub open spec fn key_le(a: KeyV, b: KeyV) -> bool {
    if a.unnamed != b.unnamed {
        !a.unnamed
    } else if a.unnamed {
        true
    } else {
        lex_le(a.name, b.name)
    }
}

pub proof fn lemma_key_le_total(a: KeyV, b: KeyV)
    ensures
        key_le(a, b) || key_le(b, a),
{
    lemma_lex_le_total(a.name, b.name);
}

pub proof fn lemma_key_le_transitive(a: KeyV, b: KeyV, c: KeyV)
    requires
        key_le(a, b),
        key_le(b, c),
    ensures
        key_le(a, c),
{
    if !a.unnamed && !b.unnamed && !c.unnamed {
        lemma_lex_le_transitive(a.name, b.name, c.name);
    }
}

/// The sort key of an identifier.
pub open spec fn ident_key(i: &Ident) -> KeyV {
    match i {
        Ident::Named(name) => KeyV { unnamed: false, name: name@ },
        Ident::Unnamed => KeyV { unnamed: true, name: Seq::empty() },
    }
}

/// Whether `a` sorts at or before `b` in the order the tree uses.
pub fn ident_le(a: &Ident, b: &Ident) -> (r: bool)
    ensures
        r == key_le(ident_key(a), ident_key(b)),
{
    match (a, b) {
        (Ident::Named(x), Ident::Named(y)) => str_le(x.as_str(), y.as_str()),
        (Ident::Named(_), Ident::Unnamed) => true,
        (Ident::Unnamed, Ident::Named(_)) => false,
        (Ident::Unnamed, Ident::Unnamed) => true,
    }
}

/// An item the post-processor can sort by name.
pub trait SortItem: Sized {
    spec fn skey(&self) -> KeyV;

    fn le_by_name(&self, other: &Self) -> (r: bool)
        ensures
            r == key_le(self.skey(), other.skey()),
    ;
}

impl SortItem for Module {
    open spec fn skey(&self) -> KeyV {
        KeyV { unnamed: false, name: self.name@ }
    }

    fn le_by_name(&self, other: &Self) -> (r: bool) {
        str_le(self.name.as_str(), other.name.as_str())
    }
}

impl SortItem for Constant {
    open spec fn skey(&self) -> KeyV {
        ident_key(&self.name)
    }

    fn le_by_name(&self, other: &Self) -> (r: bool) {
        ident_le(&self.name, &other.name)
    }
}

impl SortItem for GlobalVariable {
    open spec fn skey(&self) -> KeyV {
        ident_key(&self.name)
    }

    fn le_by_name(&self, other: &Self) -> (r: bool) {
        ident_le(&self.name, &other.name)
    }
}

impl SortItem for Struct {
    open spec fn skey(&self) -> KeyV {
        ident_key(&self.name)
    }

    fn le_by_name(&self, other: &Self) -> (r: bool) {
        ident_le(&self.name, &other.name)
    }
}

impl SortItem for Function {
    open spec fn skey(&self) -> KeyV {
        ident_key(&self.name)
    }

    fn le_by_name(&self, other: &Self) -> (r: bool) {
        ident_le(&self.name, &other.name)
    }
}

impl SortItem for String {
    open spec fn skey(&self) -> KeyV {
        KeyV { unnamed: false, name: self@ }
    }

    fn le_by_name(&self, other: &Self) -> (r: bool) {
        str_le(self.as_str(), other.as_str())
    }
}

impl SortItem for DefEntry {
    open spec fn skey(&self) -> KeyV {
        KeyV { unnamed: false, name: self.name@ }
    }

    fn le_by_name(&self, other: &Self) -> (r: bool) {
        str_le(self.name.as_str(), other.name.as_str())
    }
}

/// Whether a sequence is sorted by the items' names.
pub open spec fn sorted_by_key<T: SortItem>(s: Seq<T>) -> bool {
    forall|i: int, j: int| 0 <= i < j < s.len() ==> key_le(#[trigger] s[i].skey(), #[trigger] s[j].skey())
}

proof fn lemma_insert_multiset<T>(s: Seq<T>, j: int, x: T)
    requires
        0 <= j <= s.len(),
    ensures
        s.insert(j, x).to_multiset() =~= s.to_multiset().insert(x),
{
    let t = s.insert(j, x);
    s.insert_ensures(j, x);
    assert(t.remove(j) =~= s);
    assert(t.remove(j).to_multiset() =~= t.to_multiset().remove(t[j]));
    assert(t[j] == x);
    assert(t.to_multiset().contains(x)) by {
        assert(t.contains(x)) by {
            assert(t[j] == x);
        }
    }
    assert(t.to_multiset() =~= t.to_multiset().remove(x).insert(x)) by {
        let m = t.to_multiset();
        assert(m.count(x) > 0);
        assert forall|y: T| m.remove(x).insert(x).count(y) == m.count(y) by {
            if y == x {
                assert(m.remove(x).insert(x).count(x) == m.count(x));
            }
        }
    }
}

fn find_insert_pos<T: SortItem>(out: &Vec<T>, x: &T) -> (j: usize)
    ensures
        j <= out@.len(),
        forall|t: int| 0 <= t < j ==> key_le(#[trigger] out@[t].skey(), x.skey()),
        j < out@.len() ==> !key_le(out@[j as int].skey(), x.skey()),
{
    let mut j: usize = 0;
    loop
        invariant
            j <= out@.len(),
            forall|t: int| 0 <= t < j ==> key_le(#[trigger] out@[t].skey(), x.skey()),
        decreases out@.len() - j,
    {
        if j == out.len() {
            return j;
        }
        if !out[j].le_by_name(x) {
            return j;
        }
        j = j + 1;
    }
}

/// A sorted sequence with one more item: placed before the first entry
/// whose key exceeds the item's, after every equal key.
pub open spec fn spec_ins_k<T: SortItem>(s: Seq<T>, x: T) -> Seq<T>
    decreases s.len(),
{
    if s.len() == 0 {
        seq![x]
    } else if key_le(s[0].skey(), x.skey()) {
        seq![s[0]] + spec_ins_k(s.skip(1), x)
    } else {
        seq![x] + s
    }
}

/// The stable by-name sort: items inserted left to right.
pub open spec fn spec_sort_k<T: SortItem>(s: Seq<T>) -> Seq<T>
    decreases s.len(),
{
    if s.len() == 0 {
        s
    } else {
        spec_ins_k(spec_sort_k(s.drop_last()), s.last())
    }
}

proof fn lemma_spec_ins_at<T: SortItem>(s: Seq<T>, x: T, j: int)
    requires
        0 <= j <= s.len(),
        forall|t: int| 0 <= t < j ==> key_le((#[trigger] s[t]).skey(), x.skey()),
        j < s.len() ==> !key_le(s[j].skey(), x.skey()),
    ensures
        spec_ins_k(s, x) == s.insert(j, x),
    decreases s.len(),
{
    if s.len() == 0 {
        assert(spec_ins_k(s, x) =~= s.insert(0, x));
    } else if key_le(s[0].skey(), x.skey()) {
        assert(j >= 1);
        assert forall|t: int| 0 <= t < j - 1 implies key_le(
            (#[trigger] s.skip(1)[t]).skey(),
            x.skey(),
        ) by {
            assert(s.skip(1)[t] == s[t + 1]);
        }
        assert(j - 1 < s.skip(1).len() ==> !key_le(s.skip(1)[j - 1].skey(), x.skey()));
        lemma_spec_ins_at(s.skip(1), x, j - 1);
        assert(spec_ins_k(s, x) =~= s.insert(j, x)) by {
            assert(spec_ins_k(s, x) == seq![s[0]] + s.skip(1).insert(j - 1, x));
            s.skip(1).insert_ensures(j - 1, x);
            s.insert_ensures(j, x);
        }
    } else {
        assert(j == 0);
        assert(spec_ins_k(s, x) =~= s.insert(0, x));
    }
}

/// Insertion sort by name. A stable sort: on input already sorted the
/// output is the very same sequence; the output is always a
/// rearrangement of the input.
#[verifier::rlimit(60)]
pub fn sort_items<T: SortItem>(v: Vec<T>) -> (r: Vec<T>)
    ensures
        sorted_by_key(r@),
        r@.to_multiset() == v@.to_multiset(),
        r@.len() == v@.len(),
        sorted_by_key(v@) ==> r@ == v@,
        r@ == spec_sort_k(v@),
{
    let ghost orig = v@;
    let mut rest = v;
    let mut out: Vec<T> = Vec::new();
    while rest.len() != 0
        invariant
            orig =~= orig.take(orig.len() - rest@.len()) + rest@,
            rest@ =~= orig.skip(orig.len() - rest@.len()),
            sorted_by_key(out@),
            out@.to_multiset().add(rest@.to_multiset()) =~= orig.to_multiset(),
            out@.len() + rest@.len() == orig.len(),
            sorted_by_key(orig) ==> out@ =~= orig.take(out@.len() as int),
            out@ == spec_sort_k(orig.take(orig.len() - rest@.len())),
        decreases rest@.len(),
    {
        let ghost k = orig.len() - rest@.len();
        let x = rest.remove(0);
        proof {
            assert(x == orig[k]);
            assert(rest@ =~= orig.skip(k + 1));
        }
        // find the first position whose key exceeds the new item's
        let j = find_insert_pos(&out, &x);
        let ghost old_out = out@;
        let ghost jj = j as int;
        out.insert(j, x);
        proof {
            lemma_spec_ins_at(old_out, x, jj);
            assert(orig.take(k + 1).drop_last() =~= orig.take(k));
            assert(orig.take(k + 1).last() == orig[k]);
            assert(out@ == spec_sort_k(orig.take(k + 1)));
        }
        proof {
            old_out.insert_ensures(jj, x);
            lemma_insert_multiset(old_out, jj, x);
            // the result of the insertion is sorted
            assert forall|a: int, b: int| 0 <= a < b < out@.len() implies key_le(
                #[trigger] out@[a].skey(),
                #[trigger] out@[b].skey(),
            ) by {
                if jj < old_out.len() {
                    lemma_key_le_total(old_out[jj].skey(), x.skey());
                    assert(key_le(x.skey(), old_out[jj].skey()));
                }
                if a < jj && b == jj {
                    assert(out@[a] == old_out[a]);
                    assert(out@[b] == x);
                } else if a == jj && b > jj {
                    assert(out@[a] == x);
                    assert(out@[b] == old_out[b - 1]);
                    assert(jj <= b - 1 < old_out.len());
                    if jj < b - 1 {
                        assert(key_le(old_out[jj].skey(), old_out[b - 1].skey()));
                        lemma_key_le_transitive(x.skey(), old_out[jj].skey(), old_out[b - 1].skey());
                    }
                } else if a < jj && b > jj {
                    assert(out@[a] == old_out[a]);
                    assert(out@[b] == old_out[b - 1]);
                } else if a > jj && b > jj {
                    assert(out@[a] == old_out[a - 1]);
                    assert(out@[b] == old_out[b - 1]);
                } else if a < jj && b < jj {
                    assert(out@[a] == old_out[a]);
                    assert(out@[b] == old_out[b]);
                }
            }
            // a sorted input is reproduced element for element
            if sorted_by_key(orig) {
                assert(old_out =~= orig.take(k));
                assert forall|t: int| 0 <= t < k implies key_le(
                    #[trigger] orig[t].skey(),
                    orig[k].skey(),
                ) by {}
                if jj < old_out.len() {
                    assert(key_le(old_out[jj].skey(), x.skey()));
                    assert(false);
                }
                assert(jj == k);
                assert(out@ =~= orig.take(k + 1));
            }
        }
    }
    proof {
        assert(rest@.len() == 0);
        assert(out@.to_multiset().add(rest@.to_multiset()) =~= out@.to_multiset()) by {
            assert(rest@.to_multiset() =~= vstd::multiset::Multiset::empty());
        }
        if sorted_by_key(orig) {
            assert(out@ =~= orig.take(orig.len() as int));
            assert(orig.take(orig.len() as int) =~= orig);
        }
        assert(orig.take(orig.len() as int) =~= orig);
    }
    out
}


/// Whether a view holds a string with the given characters.
pub open spec fn has_str(vs: Seq<String>, s: Seq<char>) -> bool {
    exists|i: int| 0 <= i < vs.len() && vs[i]@ == s
}

/// Whether no two entries read the same.
pub open spec fn unique_views(vs: Seq<String>) -> bool {
    forall|i: int, j: int| 0 <= i < j < vs.len() ==> vs[i]@ != vs[j]@
}

/// Whether the token set holds a string equal to `s`.
pub fn contains_str(v: &Vec<String>, s: &str) -> (r: bool)
    ensures
        r == has_str(v@, s@),
{
    let mut i: usize = 0;
    while i != v.len()
        invariant
            i <= v@.len(),
            forall|t: int| 0 <= t < i ==> v@[t]@ != s@,
        decreases v@.len() - i,
    {
        if crate::text::str_eq(v[i].as_str(), s) {
            return true;
        }
        i = i + 1;
    }
    false
}

/// Whether one of the first `k` entries reads as `s`.
pub open spec fn has_str_upto(vs: Seq<String>, k: int, s: Seq<char>) -> bool {
    exists|u: int| 0 <= u < k && (#[trigger] vs[u])@ == s
}

proof fn has_str_intro(vs: Seq<String>, w: int)
    requires
        0 <= w < vs.len(),
    ensures
        has_str(vs, vs[w]@),
{
}

/// The union of two token sets: entries of `src` missing from `dst`,
/// appended in order.
pub open spec fn spec_extend(dst: Seq<String>, src: Seq<String>) -> Seq<String>
    decreases src.len(),
{
    if src.len() == 0 {
        dst
    } else if has_str(dst, src[0]@) {
        spec_extend(dst, src.skip(1))
    } else {
        spec_extend(dst.push(src[0]), src.skip(1))
    }
}

/// Union of token sets: every entry of `src` missing from `dst` is appended,
/// in order. A set already covering `src` comes back unchanged.
pub fn extend_unique(dst: Vec<String>, src: &Vec<String>) -> (r: Vec<String>)
    ensures
        r@ == spec_extend(dst@, src@),
        r@.len() >= dst@.len(),
        r@.take(dst@.len() as int) == dst@,
        forall|t: int|
            0 <= t < r@.len() ==> has_str(dst@, (#[trigger] r@[t])@) || has_str(src@, r@[t]@),
        forall|t: int| 0 <= t < src@.len() ==> has_str(r@, (#[trigger] src@[t])@),
        unique_views(dst@) ==> unique_views(r@),
        (forall|t: int| 0 <= t < src@.len() ==> has_str(dst@, (#[trigger] src@[t])@)) ==> r@
            == dst@,
{
    let ghost dst0 = dst@;
    let mut r = dst;
    let mut i: usize = 0;
    proof {
        assert(src@.skip(0) =~= src@);
    }
    while i != src.len()
        invariant
            i <= src@.len(),
            r@.len() >= dst0.len(),
            spec_extend(dst0, src@) == spec_extend(r@, src@.skip(i as int)),
            r@.take(dst0.len() as int) =~= dst0,
            forall|t: int|
                0 <= t < r@.len() ==> has_str(dst0, (#[trigger] r@[t])@) || has_str_upto(
                    src@,
                    i as int,
                    r@[t]@,
                ),
            forall|t: int| 0 <= t < i ==> has_str(r@, (#[trigger] src@[t])@),
            unique_views(dst0) ==> unique_views(r@),
            (forall|t: int| 0 <= t < i ==> has_str(dst0, (#[trigger] src@[t])@)) ==> r@ =~= dst0,
        decreases src@.len() - i,
    {
        let ghost r0 = r@;
        if !contains_str(&r, src[i].as_str()) {
            let c = src[i].clone();
            r.push(c);
            proof {
                assert(c == src@[i as int]);
                assert(r@ =~= r0.push(c));
                assert(src@.skip(i as int)[0] == src@[i as int]);
                assert(!has_str(r0, src@[i as int]@));
                assert(src@.skip(i as int).skip(1) =~= src@.skip(i + 1));
                assert(spec_extend(r0, src@.skip(i as int)) == spec_extend(
                    r@,
                    src@.skip(i + 1),
                ));
                assert(r@.take(dst0.len() as int) =~= r0.take(dst0.len() as int));
                assert forall|t: int| 0 <= t < r@.len() implies has_str(
                    dst0,
                    (#[trigger] r@[t])@,
                ) || has_str_upto(src@, i + 1, r@[t]@) by {
                    if t < r0.len() {
                        assert(r@[t] == r0[t]);
                    } else {
                        assert(r@[t] == src@[i as int]);
                        assert(has_str_upto(src@, i + 1, src@[i as int]@));
                    }
                }
                assert forall|t: int| 0 <= t < i + 1 implies has_str(
                    r@,
                    (#[trigger] src@[t])@,
                ) by {
                    if t < i {
                        let u = choose|u: int| 0 <= u < r0.len() && (#[trigger] r0[u])@
                            == src@[t]@;
                        assert(r@[u]@ == src@[t]@);
                        has_str_intro(r@, u);
                    } else {
                        has_str_intro(r@, r@.len() - 1);
                    }
                }
                assert forall|a: int, b: int|
                    0 <= a < b < r@.len() && unique_views(dst0) implies r@[a]@ != r@[b]@ by {
                    if b == r@.len() - 1 {
                        assert(!has_str(r0, c@));
                        assert(r@[a] == r0[a]);
                        if r@[a]@ == c@ {
                            has_str_intro(r0, a);
                        }
                    }
                }
            }
        } else {
            proof {
                assert(src@.skip(i as int)[0] == src@[i as int]);
                assert(has_str(r@, src@[i as int]@));
                assert(src@.skip(i as int).skip(1) =~= src@.skip(i + 1));
                assert(spec_extend(r@, src@.skip(i as int)) == spec_extend(
                    r@,
                    src@.skip(i + 1),
                ));
                assert forall|t: int| 0 <= t < r@.len() implies has_str(
                    dst0,
                    (#[trigger] r@[t])@,
                ) || has_str_upto(src@, i + 1, r@[t]@) by {
                    if !has_str(dst0, r@[t]@) {
                        let u = choose|u: int| 0 <= u < i && (#[trigger] src@[u])@ == r@[t]@;
                        assert(has_str_upto(src@, i + 1, r@[t]@));
                    }
                }
            }
        }
        i = i + 1;
    }
    proof {
        assert(src@.skip(src@.len() as int) =~= Seq::empty());
        assert(spec_extend(r@, src@.skip(src@.len() as int)) == r@);
        assert forall|t: int| 0 <= t < r@.len() implies has_str(
            dst0,
            (#[trigger] r@[t])@,
        ) || has_str(src@, r@[t]@) by {
            if !has_str(dst0, r@[t]@) {
                let u = choose|u: int| 0 <= u < src@.len() && (#[trigger] src@[u])@ == r@[t]@;
                has_str_intro(src@, u);
            }
        }
    }
    r
}

/// All conditional-compilation tokens referenced by a module or any
/// of its descendants.
pub open spec fn all_tokens(m: ModuleV) -> Set<Seq<char>>
    decreases m,
{
    Set::new(|s: Seq<char>| has_str(m.shader_defs, s)).union(all_child_tokens(m.modules))
}

pub open spec fn all_child_tokens(ms: Seq<ModuleV>) -> Set<Seq<char>>
    decreases ms,
{
    if ms.len() == 0 {
        Set::empty()
    } else {
        all_child_tokens(ms.drop_last()).union(all_tokens(ms.last()))
    }
}

proof fn lemma_all_child_tokens_index(ms: Seq<ModuleV>, i: int)
    requires
        0 <= i < ms.len(),
    ensures
        all_tokens(ms[i]).subset_of(all_child_tokens(ms)),
    decreases ms,
{
    if i == ms.len() - 1 {
    } else {
        lemma_all_child_tokens_index(ms.drop_last(), i);
    }
}

proof fn lemma_all_child_tokens_members(ms: Seq<ModuleV>, s: Seq<char>)
    requires
        all_child_tokens(ms).contains(s),
    ensures
        exists|i: int| 0 <= i < ms.len() && all_tokens(#[trigger] ms[i]).contains(s),
    decreases ms,
{
    if ms.len() > 0 {
        if all_tokens(ms.last()).contains(s) {
            assert(all_tokens(ms[ms.len() - 1]).contains(s));
        } else {
            lemma_all_child_tokens_members(ms.drop_last(), s);
            let i = choose|i: int|
                0 <= i < ms.drop_last().len() && all_tokens(#[trigger] ms.drop_last()[i]).contains(
                    s,
                );
            assert(ms.drop_last()[i] == ms[i]);
            assert(all_tokens(ms[i]).contains(s));
        }
    }
}

/// A fully normalized module: every level sorted by name, token sets
/// without duplicates, and every module's token set a superset of each
/// of its descendants' token sets.
pub open spec fn module_normalized(m: ModuleV) -> bool
    decreases m,
{
    &&& sorted_by_key(m.constants)
    &&& sorted_by_key(m.global_variables)
    &&& sorted_by_key(m.structs)
    &&& sorted_by_key(m.functions)
    &&& modules_sorted(m.modules)
    &&& tokens_sorted(m.shader_defs)
    &&& unique_views(m.shader_defs)
    &&& forall|i: int|
        0 <= i < m.modules.len() ==> all_tokens(#[trigger] m.modules[i]).subset_of(
            Set::new(|s: Seq<char>| has_str(m.shader_defs, s)),
        )
    &&& forall|i: int| 0 <= i < m.modules.len() ==> module_normalized(#[trigger] m.modules[i])
}

/// Child modules in name order.
pub open spec fn modules_sorted(ms: Seq<ModuleV>) -> bool {
    forall|i: int, j: int| 0 <= i < j < ms.len() ==> lex_le(#[trigger] ms[i].name@, #[trigger] ms[j].name@)
}

/// Token entries in name order.
pub open spec fn tokens_sorted(vs: Seq<String>) -> bool {
    forall|i: int, j: int| 0 <= i < j < vs.len() ==> lex_le(#[trigger] vs[i]@, #[trigger] vs[j]@)
}

proof fn lemma_has_str_multiset(a: Seq<String>, b: Seq<String>)
    requires
        a.to_multiset() == b.to_multiset(),
    ensures
        forall|s: Seq<char>| has_str(a, s) <==> has_str(b, s),
{
    assert forall|s: Seq<char>| has_str(a, s) implies has_str(b, s) by {
        let i = choose|i: int| 0 <= i < a.len() && a[i]@ == s;
        assert(a.contains(a[i]));
        assert(b.to_multiset().count(a[i]) > 0);
        assert(b.contains(a[i]));
        let j = choose|j: int| 0 <= j < b.len() && b[j] == a[i];
        assert(b[j]@ == s);
    }
    assert forall|s: Seq<char>| has_str(b, s) implies has_str(a, s) by {
        let i = choose|i: int| 0 <= i < b.len() && b[i]@ == s;
        assert(b.contains(b[i]));
        assert(a.to_multiset().count(b[i]) > 0);
        assert(a.contains(b[i]));
        let j = choose|j: int| 0 <= j < a.len() && a[j] == b[i];
        assert(a[j]@ == s);
    }
}

proof fn lemma_unique_views_multiset(a: Seq<String>, b: Seq<String>)
    requires
        a.to_multiset() == b.to_multiset(),
        unique_views(a),
    ensures
        unique_views(b),
{
    assert forall|i: int, j: int| 0 <= i < j < b.len() implies b[i]@ != b[j]@ by {
        if b[i]@ == b[j]@ {
            if b[i] == b[j] {
                let sub = b.remove(j);
                assert(sub.to_multiset() =~= b.to_multiset().remove(b[j]));
                assert(sub[i] == b[i]);
                assert(sub.contains(b[i]));
                assert(sub.to_multiset().count(b[i]) > 0);
                assert(b.to_multiset().count(b[i]) >= 2);
                assert(a.to_multiset().count(b[i]) >= 2);
                lemma_count_two_indices(a, b[i]);
            } else {
                assert(b.contains(b[i]));
                assert(b.contains(b[j]));
                assert(b.to_multiset().count(b[i]) > 0);
                assert(b.to_multiset().count(b[j]) > 0);
                assert(a.to_multiset().count(b[i]) > 0);
                assert(a.to_multiset().count(b[j]) > 0);
                assert(a.contains(b[i]));
                assert(a.contains(b[j]));
                let x = choose|x: int| 0 <= x < a.len() && a[x] == b[i];
                let y = choose|y: int| 0 <= y < a.len() && a[y] == b[j];
                assert(a[x]@ == a[y]@);
                assert(x != y);
            }
        }
    }
}

proof fn lemma_count_two_indices(a: Seq<String>, x: String)
    requires
        a.to_multiset().count(x) >= 2,
    ensures
        !unique_views(a),
    decreases a.len(),
{
    assert(a.to_multiset().contains(x));
    assert(a.contains(x));
    let i = choose|i: int| 0 <= i < a.len() && a[i] == x;
    let sub = a.remove(i);
    assert(sub.to_multiset() =~= a.to_multiset().remove(x));
    assert(sub.to_multiset().count(x) >= 1);
    assert(sub.contains(x));
    let j = choose|j: int| 0 <= j < sub.len() && sub[j] == x;
    a.remove_ensures(i);
    if j < i {
        assert(a[j] == x);
        assert(a[j]@ == a[i]@);
    } else {
        assert(a[j + 1] == x);
        assert(a[i]@ == a[j + 1]@);
    }
}


/// In a normalized module, the module's own token set already covers
/// every descendant's tokens.
pub proof fn lemma_normalized_all_tokens(m: ModuleV, s: Seq<char>)
    requires
        module_normalized(m),
    ensures
        all_tokens(m).contains(s) <==> has_str(m.shader_defs, s),
    decreases m,
{
    if all_tokens(m).contains(s) && !has_str(m.shader_defs, s) {
        lemma_all_child_tokens_members(m.modules, s);
        let i = choose|i: int|
            0 <= i < m.modules.len() && all_tokens(#[trigger] m.modules[i]).contains(s);
        assert(all_tokens(m.modules[i]).subset_of(
            Set::new(|t: Seq<char>| has_str(m.shader_defs, t)),
        ));
    }
}

proof fn lemma_multiset_elem<T>(a: Seq<T>, b: Seq<T>, i: int) -> (j: int)
    requires
        a.to_multiset() == b.to_multiset(),
        0 <= i < a.len(),
    ensures
        0 <= j < b.len() && b[j] == a[i],
{
    assert(a.contains(a[i]));
    assert(a.to_multiset().count(a[i]) > 0);
    assert(b.contains(a[i]));
    choose|j: int| 0 <= j < b.len() && b[j] == a[i]
}


/// Drop duplicate token entries, keeping first occurrences in order.
pub fn dedupe_tokens(src: Vec<String>) -> (r: Vec<String>)
    ensures
        r@ == spec_dedupe(src@),
        unique_views(r@),
        forall|t: int| 0 <= t < r@.len() ==> has_str(src@, (#[trigger] r@[t])@),
        forall|t: int| 0 <= t < src@.len() ==> has_str(r@, (#[trigger] src@[t])@),
        unique_views(src@) ==> r@ == src@,
{
    let ghost src0 = src@;
    let mut rest = src;
    let mut r: Vec<String> = Vec::new();
    while rest.len() != 0
        invariant
            rest@ =~= src0.skip(src0.len() - rest@.len()),
            r@.len() <= src0.len() - rest@.len(),
            r@ == spec_dedupe(src0.take(src0.len() - rest@.len())),
            unique_views(r@),
            forall|t: int| 0 <= t < r@.len() ==> has_str(src0, (#[trigger] r@[t])@),
            forall|t: int|
                0 <= t < src0.len() - rest@.len() ==> has_str(r@, (#[trigger] src0[t])@),
            unique_views(src0) ==> r@ =~= src0.take(src0.len() - rest@.len()),
        decreases rest@.len(),
    {
        let ghost k = src0.len() - rest@.len();
        let x = rest.remove(0);
        proof {
            assert(x == src0[k]);
            assert(rest@ =~= src0.skip(k + 1));
            assert(src0.take(k + 1).drop_last() =~= src0.take(k));
            assert(src0.take(k + 1).last() == src0[k]);
        }
        let ghost r0 = r@;
        if !contains_str(&r, x.as_str()) {
            r.push(x);
            proof {
                assert(r@ =~= r0.push(src0[k]));
                assert forall|a: int, b: int| 0 <= a < b < r@.len() implies r@[a]@ != r@[b]@ by {
                    if b == r@.len() - 1 {
                        if r@[a]@ == r@[b]@ {
                            has_str_intro(r0, a);
                        }
                    }
                }
                assert forall|t: int| 0 <= t < k + 1 implies has_str(
                    r@,
                    (#[trigger] src0[t])@,
                ) by {
                    if t < k {
                        let u = choose|u: int| 0 <= u < r0.len() && (#[trigger] r0[u])@
                            == src0[t]@;
                        has_str_intro(r@, u);
                    } else {
                        has_str_intro(r@, r@.len() - 1);
                    }
                }
            }
        } else {
            proof {
                if unique_views(src0) {
                    let u = choose|u: int| 0 <= u < r0.len() && (#[trigger] r0[u])@ == x@;
                    assert(r0[u] == src0.take(k)[u]);
                    assert(src0[u]@ == src0[k]@);
                    assert(false);
                }
                assert forall|t: int| 0 <= t < k + 1 implies has_str(
                    r@,
                    (#[trigger] src0[t])@,
                ) by {
                    if t == k {
                        assert(has_str(r@, x@));
                    }
                }
            }
        }
    }
    proof {
        assert(src0.take(src0.len() as int) =~= src0);
        if unique_views(src0) {
            assert(r@ =~= src0.take(src0.len() as int));
        }
    }
    r
}


/// Tokens deduplicated, first occurrences kept in order.
pub open spec fn spec_dedupe(s: Seq<String>) -> Seq<String>
    decreases s.len(),
{
    if s.len() == 0 {
        Seq::empty()
    } else {
        let d = spec_dedupe(s.drop_last());
        if has_str(d, s.last()@) {
            d
        } else {
            d.push(s.last())
        }
    }
}

/// A token set extended by each child's set in turn.
pub open spec fn spec_collect_defs(d: Seq<String>, kids: Seq<ModuleV>) -> Seq<String>
    decreases kids.len(),
{
    if kids.len() == 0 {
        d
    } else {
        spec_extend(spec_collect_defs(d, kids.drop_last()), kids.last().shader_defs)
    }
}

/// The by-name sort key of a module view.
pub open spec fn mod_key(c: ModuleV) -> KeyV {
    KeyV { unnamed: false, name: c.name@ }
}

/// A sorted run of module views with one more placed, stably.
pub open spec fn spec_ins_mods(s: Seq<ModuleV>, x: ModuleV) -> Seq<ModuleV>
    decreases s.len(),
{
    if s.len() == 0 {
        seq![x]
    } else if key_le(mod_key(s[0]), mod_key(x)) {
        seq![s[0]] + spec_ins_mods(s.skip(1), x)
    } else {
        seq![x] + s
    }
}

/// Module views sorted by name, stably.
pub open spec fn spec_sort_mods(s: Seq<ModuleV>) -> Seq<ModuleV>
    decreases s.len(),
{
    if s.len() == 0 {
        s
    } else {
        spec_ins_mods(spec_sort_mods(s.drop_last()), s.last())
    }
}

/// The normalized image of one module: children normalized first, every
/// level sorted by name, and the token set replaced by the sorted,
/// duplicate-free union of the module's own tokens and its normalized
/// children's. The whole post-processing step is this one function.
pub open spec fn spec_post_module(m: ModuleV) -> ModuleV
    decreases m, 1int,
{
    let kids = spec_post_children(m.modules);
    ModuleV {
        name: m.name,
        source_url: m.source_url,
        modules: spec_sort_mods(kids),
        constants: spec_sort_k(m.constants),
        global_variables: spec_sort_k(m.global_variables),
        structs: spec_sort_k(m.structs),
        functions: spec_sort_k(m.functions),
        shader_defs: spec_sort_k(spec_collect_defs(spec_dedupe(m.shader_defs), kids)),
    }
}

/// Each child's normalized image, in order.
pub open spec fn spec_post_children(ms: Seq<ModuleV>) -> Seq<ModuleV>
    decreases ms, 0int,
{
    if ms.len() == 0 {
        Seq::empty()
    } else {
        spec_post_children(ms.drop_last()).push(spec_post_module(ms.last()))
    }
}

proof fn lemma_spec_post_children_push(ms: Seq<ModuleV>, x: ModuleV)
    ensures
        spec_post_children(ms.push(x)) == spec_post_children(ms).push(spec_post_module(x)),
{
    assert(ms.push(x).drop_last() =~= ms);
    assert(ms.push(x).last() == x);
}

/// Sorting by name commutes with taking module views: the keys are the
/// names, which the view keeps.
proof fn lemma_ins_view_commutes(s: Seq<Module>, x: Module)
    ensures
        view_modules(spec_ins_k(s, x)) == spec_ins_mods(view_modules(s), view_module(x)),
    decreases s.len(),
{
    broadcast use lemma_view_modules_len, lemma_view_modules_index;

    if s.len() == 0 {
        assert(view_modules(spec_ins_k(s, x)) =~= spec_ins_mods(
            view_modules(s),
            view_module(x),
        )) by {
            assert(spec_ins_k(s, x) =~= seq![x]);
            assert(view_modules(seq![x])[0] == view_module(x));
        }
    } else {
        assert(view_modules(s)[0] == view_module(s[0]));
        assert(mod_key(view_module(s[0])) == s[0].skey());
        assert(mod_key(view_module(x)) == x.skey());
        if key_le(s[0].skey(), x.skey()) {
            lemma_ins_view_commutes(s.skip(1), x);
            assert(view_modules(s).skip(1) =~= view_modules(s.skip(1))) by {
                assert forall|t: int|
                    0 <= t < s.len() - 1 implies view_modules(s).skip(1)[t] == view_modules(
                    s.skip(1),
                )[t] by {
                    assert(view_modules(s).skip(1)[t] == view_modules(s)[t + 1]);
                    assert(s.skip(1)[t] == s[t + 1]);
                }
            }
            assert(view_modules(spec_ins_k(s, x)) =~= spec_ins_mods(
                view_modules(s),
                view_module(x),
            )) by {
                let li = spec_ins_k(s, x);
                assert(li == seq![s[0]] + spec_ins_k(s.skip(1), x));
                assert forall|t: int| 0 <= t < li.len() implies view_modules(li)[t]
                    == spec_ins_mods(view_modules(s), view_module(x))[t] by {
                    assert(view_modules(li)[t] == view_module(li[t]));
                    if t == 0 {
                        assert(li[0] == s[0]);
                    } else {
                        assert(li[t] == spec_ins_k(s.skip(1), x)[t - 1]);
                        assert(view_modules(spec_ins_k(s.skip(1), x))[t - 1] == view_module(
                            li[t],
                        ));
                    }
                }
            }
        } else {
            assert(view_modules(spec_ins_k(s, x)) =~= spec_ins_mods(
                view_modules(s),
                view_module(x),
            )) by {
                let li = spec_ins_k(s, x);
                assert(li == seq![x] + s);
                assert forall|t: int| 0 <= t < li.len() implies view_modules(li)[t]
                    == spec_ins_mods(view_modules(s), view_module(x))[t] by {
                    assert(view_modules(li)[t] == view_module(li[t]));
                    if t > 0 {
                        assert(li[t] == s[t - 1]);
                    }
                }
            }
        }
    }
}

proof fn lemma_sort_view_commutes(s: Seq<Module>)
    ensures
        view_modules(spec_sort_k(s)) == spec_sort_mods(view_modules(s)),
    decreases s.len(),
{
    broadcast use lemma_view_modules_len, lemma_view_modules_index;

    if s.len() == 0 {
    } else {
        lemma_sort_view_commutes(s.drop_last());
        assert(view_modules(s).drop_last() =~= view_modules(s.drop_last())) by {
            assert forall|t: int|
                0 <= t < s.len() - 1 implies view_modules(s).drop_last()[t] == view_modules(
                s.drop_last(),
            )[t] by {
                assert(s.drop_last()[t] == s[t]);
            }
        }
        assert(view_modules(s).last() == view_module(s.last()));
        lemma_ins_view_commutes(spec_sort_k(s.drop_last()), s.last());
    }
}

/// Normalize one module, recursively: children first, then each list
/// sorted by name, and the token sets of all descendants absorbed into
/// this module's token set.
///
/// The last two clauses state that post-processing is idempotent: the
/// result is always normalized, and a normalized tree comes back
/// unchanged, so a second run returns its input.
#[verifier::loop_isolation(false)]
#[verifier::rlimit(100)]
pub fn post_process_module(m: Module) -> (r: Module)
    ensures
        r.name == m.name,
        r.source_url == m.source_url,
        r.constants@.to_multiset() == m.constants@.to_multiset(),
        r.global_variables@.to_multiset() == m.global_variables@.to_multiset(),
        r.structs@.to_multiset() == m.structs@.to_multiset(),
        r.functions@.to_multiset() == m.functions@.to_multiset(),
        r.modules@.len() == m.modules@.len(),
        forall|t: int|
            0 <= t < r.shader_defs@.len() ==> all_tokens(view_module(m)).contains(
                (#[trigger] r.shader_defs@[t])@,
            ),
        forall|s: Seq<char>|
            all_tokens(view_module(m)).contains(s) ==> has_str(r.shader_defs@, s),
        module_normalized(view_module(r)),
        view_module(r) == spec_post_module(view_module(m)),
        module_normalized(view_module(m)) ==> view_module(r) == view_module(m),
    decreases m,
{
    let ghost m0 = m;
    let ghost mv = view_module(m);
    let Module { name, source_url, mut modules, constants, global_variables, structs, functions, shader_defs } = m;
    let ghost orig_children = modules@;
    let ghost orig_defs = shader_defs@;
    proof {
        assert(orig_children == m0.modules@);
        assert(mv.modules == view_modules(orig_children));
        assert(mv.shader_defs == orig_defs);
    }

    let mut processed: Vec<Module> = Vec::new();
    let mut defs = dedupe_tokens(shader_defs);
    proof {
        if module_normalized(mv) {
            assert(unique_views(orig_defs));
            assert(defs@ == orig_defs);
        }
        assert forall|t: int| 0 <= t < orig_defs.len() implies has_str(
            defs@,
            (#[trigger] orig_defs[t])@,
        ) by {}
    }
    while modules.len() != 0
        invariant
            processed@.len() + modules@.len() == orig_children.len(),
            modules@ =~= orig_children.skip(processed@.len() as int),
            // every processed child is normalized
            forall|j: int|
                0 <= j < processed@.len() ==> module_normalized(view_module(
                    #[trigger] processed@[j],
                )),
            // and is the normalized image of the matching input child
            view_modules(processed@) == spec_post_children(
                view_modules(orig_children).take(processed@.len() as int),
            ),
            // the token set is the folded union over the processed children
            defs@ == spec_collect_defs(
                spec_dedupe(orig_defs),
                spec_post_children(view_modules(orig_children).take(processed@.len() as int)),
            ),
            // processed children keep their identity data
            forall|j: int|
                0 <= j < processed@.len() ==> (#[trigger] processed@[j]).name
                    == orig_children[j].name,
            // the accumulated token set covers the module's own tokens
            forall|t: int|
                0 <= t < orig_defs.len() ==> has_str(defs@, (#[trigger] orig_defs[t])@),
            // and each processed child's whole token closure
            forall|j: int, s: Seq<char>|
                0 <= j < processed@.len() && #[trigger] all_tokens(
                    view_modules(orig_children)[j],
                ).contains(s) ==> has_str(defs@, s),
            // nothing in the token set is foreign
            forall|t: int|
                0 <= t < defs@.len() ==> has_str(orig_defs, (#[trigger] defs@[t])@)
                    || exists|j: int|
                    0 <= j < processed@.len() && all_tokens(
                        #[trigger] view_modules(orig_children)[j],
                    ).contains(defs@[t]@),
            // uniqueness is preserved
            unique_views(defs@),
            // each processed child's tokens equal its incoming subtree tokens
            forall|j: int, s: Seq<char>|
                0 <= j < processed@.len() ==> (#[trigger] has_str(
                    processed@[j].shader_defs@,
                    s,
                ) <==> #[trigger] all_tokens(view_modules(orig_children)[j]).contains(s)),
            // on normalized input everything is reproduced identically
            module_normalized(mv) ==> (forall|j: int|
                0 <= j < processed@.len() ==> view_module(#[trigger] processed@[j])
                    == view_modules(orig_children)[j]),
            module_normalized(mv) ==> defs@ =~= orig_defs,
        decreases modules@.len(),
    {
        let ghost k = processed@.len() as int;
        let child = modules.remove(0);
        proof {
            assert(child == orig_children[k]);
            assert(modules@ =~= orig_children.skip(k + 1));
            assert(decreases_to!(m0 => m0.modules));
            assert(decreases_to!(m0.modules => m0.modules@[k]));
            assert(child == m0.modules@[k]);
            lemma_view_modules_index(orig_children, k);
            if module_normalized(mv) {
                assert(module_normalized(view_module(child)));
            }
        }
        let child = post_process_module(child);
        let ghost defs0 = defs@;
        defs = extend_unique(defs, &child.shader_defs);
        proof {
            // old tokens survive extension
            assert forall|t: int| 0 <= t < defs0.len() implies has_str(
                defs@,
                (#[trigger] defs0[t])@,
            ) by {
                assert(defs@[t] == defs0[t]);
                has_str_intro(defs@, t);
            }
            assert forall|t: int| 0 <= t < orig_defs.len() implies has_str(
                defs@,
                (#[trigger] orig_defs[t])@,
            ) by {
                let u = choose|u: int| 0 <= u < defs0.len() && (#[trigger] defs0[u])@
                    == orig_defs[t]@;
                assert(defs@[u] == defs0[u]);
                has_str_intro(defs@, u);
            }
            // the new child's subtree tokens are now covered
            assert forall|s: Seq<char>|
                all_tokens(#[trigger] view_modules(orig_children)[k]).contains(s) implies has_str(
                defs@,
                s,
            ) by {
                assert(has_str(child.shader_defs@, s));
                let u = choose|u: int|
                    0 <= u < child.shader_defs@.len() && (#[trigger] child.shader_defs@[u])@ == s;
                assert(has_str(defs@, child.shader_defs@[u]@));
            }
            // previously covered children stay covered
            assert forall|j: int, s: Seq<char>|
                0 <= j < k && #[trigger] all_tokens(view_modules(orig_children)[j]).contains(
                    s,
                ) implies has_str(defs@, s) by {
                assert(has_str(defs0, s));
                let u = choose|u: int| 0 <= u < defs0.len() && (#[trigger] defs0[u])@ == s;
                assert(defs@[u] == defs0[u]);
                has_str_intro(defs@, u);
            }
            // provenance of every token entry
            assert forall|t: int| 0 <= t < defs@.len() implies has_str(
                orig_defs,
                (#[trigger] defs@[t])@,
            ) || exists|j: int|
                0 <= j < k + 1 && all_tokens(#[trigger] view_modules(orig_children)[j]).contains(
                    defs@[t]@,
                ) by {
                if t < defs0.len() {
                    assert(defs@[t] == defs0[t]);
                    if !has_str(orig_defs, defs@[t]@) {
                        let j = choose|j: int|
                            0 <= j < k && all_tokens(
                                #[trigger] view_modules(orig_children)[j],
                            ).contains(defs0[t]@);
                        assert(all_tokens(view_modules(orig_children)[j]).contains(defs@[t]@));
                    }
                } else {
                    assert(has_str(child.shader_defs@, defs@[t]@)) by {
                        has_str_intro(child.shader_defs@, {
                            let w = choose|w: int|
                                0 <= w < child.shader_defs@.len() && (
                                #[trigger] child.shader_defs@[w])@ == defs@[t]@;
                            w
                        });
                    }
                    assert(all_tokens(view_modules(orig_children)[k]).contains(defs@[t]@));
                }
            }
            // identity on normalized input
            if module_normalized(mv) {
                lemma_view_modules_index(orig_children, k);
                assert(module_normalized(view_modules(orig_children)[k]));
                assert(view_module(child) == view_modules(orig_children)[k]);
                assert(child.shader_defs@ == view_module(child).shader_defs);
                assert forall|t: int| 0 <= t < child.shader_defs@.len() implies has_str(
                    defs0,
                    (#[trigger] child.shader_defs@[t])@,
                ) by {
                    has_str_intro(child.shader_defs@, t);
                    assert(has_str(child.shader_defs@, child.shader_defs@[t]@));
                    lemma_normalized_all_tokens(
                        view_module(child),
                        child.shader_defs@[t]@,
                    );
                    assert(all_tokens(view_modules(orig_children)[k]).contains(
                        child.shader_defs@[t]@,
                    ));
                    assert(all_tokens(view_modules(orig_children)[k]).subset_of(
                        Set::new(|q: Seq<char>| has_str(mv.shader_defs, q)),
                    ));
                    assert(has_str(orig_defs, child.shader_defs@[t]@));
                }
                assert(defs@ =~= defs0);
            }
        }
        let ghost processed0 = processed@;
        processed.push(child);
        proof {
            lemma_view_modules_index(orig_children, k);
            lemma_view_modules_push(processed0, child);
            let ghost ocv = view_modules(orig_children);
            assert(ocv.take(k + 1).drop_last() =~= ocv.take(k));
            assert(ocv.take(k + 1).last() == ocv[k]);
            assert(view_modules(processed@) == spec_post_children(ocv.take(k + 1))) by {
                assert(view_modules(processed@) == view_modules(processed0).push(
                    view_module(child),
                ));
                assert(view_module(child) == spec_post_module(ocv[k]));
            }
            assert(defs@ == spec_collect_defs(
                spec_dedupe(orig_defs),
                spec_post_children(ocv.take(k + 1)),
            )) by {
                let kids1 = spec_post_children(ocv.take(k + 1));
                assert(ocv.take(k + 1) =~= ocv.take(k).push(ocv[k]));
                lemma_spec_post_children_push(ocv.take(k), ocv[k]);
                assert(kids1 == spec_post_children(ocv.take(k)).push(spec_post_module(ocv[k])));
                assert(kids1.drop_last() =~= spec_post_children(ocv.take(k)));
                assert(kids1.last() == spec_post_module(ocv[k]));
                assert(kids1.last().shader_defs == child.shader_defs@);
            }
        }
    }

    let sorted_modules = sort_items(processed);
    let constants = sort_items(constants);
    let global_variables = sort_items(global_variables);
    let structs = sort_items(structs);
    let functions = sort_items(functions);
    let shader_defs = sort_items(defs);

    let r = Module {
        name,
        source_url,
        modules: sorted_modules,
        constants,
        global_variables,
        structs,
        functions,
        shader_defs,
    };
    proof {
        let rv = view_module(r);
        let ghost pch = processed@;
        assert(pch.len() == orig_children.len());
        assert(rv.modules == view_modules(r.modules@));
        assert(rv.constants == r.constants@);
        assert(rv.shader_defs == r.shader_defs@);
        assert(r.modules@.len() == pch.len()) by {
            assert(r.modules@.to_multiset().len() == r.modules@.len());
            assert(pch.to_multiset().len() == pch.len());
        }
        assert(r.constants@.to_multiset() == m0.constants@.to_multiset());
        assert(r.modules@.len() == m0.modules@.len());

        // every token entry of the result lies in the input's subtree tokens
        assert forall|t: int| 0 <= t < r.shader_defs@.len() implies all_tokens(mv).contains(
            (#[trigger] r.shader_defs@[t])@,
        ) by {
            let j = lemma_multiset_elem(r.shader_defs@, defs@, t);
            assert(defs@[j]@ == r.shader_defs@[t]@);
            if has_str(orig_defs, defs@[j]@) {
                assert(has_str(mv.shader_defs, r.shader_defs@[t]@));
                assert(all_tokens(mv).contains(r.shader_defs@[t]@));
            } else {
                let c = choose|c: int|
                    0 <= c < pch.len() && all_tokens(
                        #[trigger] view_modules(orig_children)[c],
                    ).contains(defs@[j]@);
                lemma_all_child_tokens_index(view_modules(orig_children), c);
                assert(all_child_tokens(mv.modules).contains(r.shader_defs@[t]@));
                assert(all_tokens(mv).contains(r.shader_defs@[t]@));
            }
        }

        // and every subtree token of the input is in the result
        assert forall|s: Seq<char>| all_tokens(mv).contains(s) implies has_str(
            r.shader_defs@,
            s,
        ) by {
            if has_str(mv.shader_defs, s) {
                let t = choose|t: int| 0 <= t < orig_defs.len() && (#[trigger] orig_defs[t])@
                    == s;
                assert(has_str(defs@, orig_defs[t]@));
            } else {
                lemma_all_child_tokens_members(mv.modules, s);
                let c = choose|c: int|
                    0 <= c < mv.modules.len() && all_tokens(#[trigger] mv.modules[c]).contains(s);
                assert(view_modules(orig_children)[c] == mv.modules[c]);
                assert(has_str(defs@, s));
            }
            lemma_has_str_multiset(defs@, r.shader_defs@);
        }

        // the result is normalized
        assert(module_normalized(rv)) by {
            assert(sorted_by_key(rv.constants));
            assert(sorted_by_key(rv.global_variables));
            assert(sorted_by_key(rv.structs));
            assert(sorted_by_key(rv.functions));
            assert(modules_sorted(rv.modules)) by {
                assert forall|a: int, b: int| 0 <= a < b < rv.modules.len() implies lex_le(
                    (#[trigger] rv.modules[a]).name@,
                    (#[trigger] rv.modules[b]).name@,
                ) by {
                    lemma_view_modules_index(r.modules@, a);
                    lemma_view_modules_index(r.modules@, b);
                    assert(key_le(r.modules@[a].skey(), r.modules@[b].skey()));
                }
            }
            assert(tokens_sorted(rv.shader_defs)) by {
                assert forall|a: int, b: int| 0 <= a < b < r.shader_defs@.len() implies lex_le(
                    (#[trigger] r.shader_defs@[a])@,
                    (#[trigger] r.shader_defs@[b])@,
                ) by {
                    assert(key_le(r.shader_defs@[a].skey(), r.shader_defs@[b].skey()));
                }
            }
            assert(unique_views(rv.shader_defs)) by {
                lemma_unique_views_multiset(defs@, r.shader_defs@);
            }
            assert forall|i: int| 0 <= i < rv.modules.len() implies module_normalized(
                #[trigger] rv.modules[i],
            ) by {
                lemma_view_modules_index(r.modules@, i);
                let j = lemma_multiset_elem(r.modules@, pch, i);
                assert(view_module(r.modules@[i]) == view_module(pch[j]));
            }
            assert forall|i: int| 0 <= i < rv.modules.len() implies all_tokens(
                #[trigger] rv.modules[i],
            ).subset_of(Set::new(|s: Seq<char>| has_str(rv.shader_defs, s))) by {
                lemma_view_modules_index(r.modules@, i);
                let j = lemma_multiset_elem(r.modules@, pch, i);
                assert(view_module(r.modules@[i]) == view_module(pch[j]));
                assert forall|s: Seq<char>| all_tokens(rv.modules[i]).contains(s) implies
                    has_str(rv.shader_defs, s) by {
                    lemma_normalized_all_tokens(view_module(pch[j]), s);
                    assert(has_str(pch[j].shader_defs@, s));
                    assert(all_tokens(view_modules(orig_children)[j]).contains(s));
                    assert(has_str(defs@, s));
                    lemma_has_str_multiset(defs@, r.shader_defs@);
                }
            }
        }

        // the result is exactly the normalized image of the input
        assert(rv == spec_post_module(mv)) by {
            let ghost ocv = view_modules(orig_children);
            assert(ocv.take(ocv.len() as int) =~= ocv);
            assert(view_modules(pch) == spec_post_children(mv.modules));
            assert(r.modules@ == spec_sort_k(pch));
            lemma_sort_view_commutes(pch);
            assert(rv.modules == spec_sort_mods(spec_post_children(mv.modules)));
            assert(rv.constants == spec_sort_k(mv.constants));
            assert(rv.global_variables == spec_sort_k(mv.global_variables));
            assert(rv.structs == spec_sort_k(mv.structs));
            assert(rv.functions == spec_sort_k(mv.functions));
            assert(defs@ == spec_collect_defs(
                spec_dedupe(mv.shader_defs),
                spec_post_children(mv.modules),
            ));
            assert(rv.shader_defs == spec_sort_k(spec_collect_defs(
                spec_dedupe(mv.shader_defs),
                spec_post_children(mv.modules),
            )));
            assert(rv =~~= spec_post_module(mv));
        }
        // a normalized tree is reproduced identically
        if module_normalized(mv) {
            assert(sorted_by_key(pch)) by {
                assert forall|a: int, b: int| 0 <= a < b < pch.len() implies key_le(
                    (#[trigger] pch[a]).skey(),
                    (#[trigger] pch[b]).skey(),
                ) by {
                    lemma_view_modules_index(orig_children, a);
                    lemma_view_modules_index(orig_children, b);
                    assert(lex_le(mv.modules[a].name@, mv.modules[b].name@));
                    assert(view_modules(orig_children)[a].name@ == orig_children[a].name@);
                    assert(pch[a].name == orig_children[a].name);
                    assert(pch[b].name == orig_children[b].name);
                }
            }
            assert(r.modules@ == pch);
            assert forall|j: int| 0 <= j < r.modules@.len() implies view_modules(r.modules@)[j]
                == mv.modules[j] by {
                lemma_view_modules_index(r.modules@, j);
                assert(view_module(pch[j]) == view_modules(orig_children)[j]);
            }
            assert(view_modules(r.modules@) =~= mv.modules);
            assert(defs@ =~= orig_defs);
            assert(sorted_by_key(defs@)) by {
                assert forall|a: int, b: int| 0 <= a < b < defs@.len() implies key_le(
                    (#[trigger] defs@[a]).skey(),
                    (#[trigger] defs@[b]).skey(),
                ) by {
                    assert(lex_le(orig_defs[a]@, orig_defs[b]@));
                }
            }
            assert(r.shader_defs@ == defs@);
            assert(sorted_by_key(m0.constants@));
            assert(r.constants@ == m0.constants@);
            assert(sorted_by_key(m0.global_variables@));
            assert(r.global_variables@ == m0.global_variables@);
            assert(sorted_by_key(m0.structs@));
            assert(r.structs@ == m0.structs@);
            assert(sorted_by_key(m0.functions@));
            assert(r.functions@ == m0.functions@);
            assert(rv =~~= mv);
        }
    }
    r
}


/// The normalized image of a whole documentation tree: the supplied
/// conditional-compilation values sorted by key, and every module
/// normalized.
pub open spec fn spec_post_doc(d: DocV) -> DocV {
    DocV {
        version: d.version,
        root: spec_post_module(d.root),
        compiled_with: spec_sort_k(d.compiled_with),
    }
}

/// A fully normalized documentation tree: a normalized root, and the
/// supplied conditional-compilation values sorted by key.
pub open spec fn doc_normalized(d: DocV) -> bool {
    &&& module_normalized(d.root)
    &&& sorted_by_key(d.compiled_with)
}

/// Normalize a whole documentation tree: sort the supplied
/// conditional-compilation values by key, then normalize every module.
///
/// Running this twice equals running it once: the result is always
/// normalized, and a normalized tree is returned unchanged.
pub fn post_process(doc: Doc) -> (r: Doc)
    ensures
        view_doc(r) == spec_post_doc(view_doc(doc)),
        r.version == doc.version,
        r.compiled_with@.to_multiset() == doc.compiled_with@.to_multiset(),
        r.root.name == doc.root.name,
        doc_normalized(view_doc(r)),
        forall|s: Seq<char>|
            all_tokens(view_module(doc.root)).contains(s) ==> has_str(r.root.shader_defs@, s),
        forall|t: int|
            0 <= t < r.root.shader_defs@.len() ==> all_tokens(view_module(doc.root)).contains(
                (#[trigger] r.root.shader_defs@[t])@,
            ),
        doc_normalized(view_doc(doc)) ==> view_doc(r) == view_doc(doc),
{
    let Doc { version, root, compiled_with } = doc;
    let compiled_with = sort_items(compiled_with);
    let root = post_process_module(root);
    let r = Doc { version, root, compiled_with };
    proof {
        assert(view_doc(r) =~~= spec_post_doc(view_doc(doc)));
        if doc_normalized(view_doc(doc)) {
            assert(view_doc(r) =~~= view_doc(doc));
        }
    }
    r
}

/// Whether `d` is a descendant module of `m` (a child, or deeper).
pub open spec fn is_descendant(m: ModuleV, d: ModuleV) -> bool
    decreases m,
{
    exists|i: int|
        0 <= i < m.modules.len() && (#[trigger] m.modules[i] == d || is_descendant(
            m.modules[i],
            d,
        ))
}

/// Token propagation: in a normalized tree, every conditional-compilation
/// token referenced by a descendant module is in each ancestor's token set.
pub proof fn lemma_token_propagation(m: ModuleV, d: ModuleV, s: Seq<char>)
    requires
        module_normalized(m),
        is_descendant(m, d),
        has_str(d.shader_defs, s),
    ensures
        has_str(m.shader_defs, s),
    decreases m,
{
    let i = choose|i: int|
        0 <= i < m.modules.len() && (#[trigger] m.modules[i] == d || is_descendant(
            m.modules[i],
            d,
        ));
    if m.modules[i] == d {
        assert(all_tokens(d).contains(s));
    } else {
        lemma_token_propagation(m.modules[i], d, s);
        assert(all_tokens(m.modules[i]).contains(s));
    }
    assert(all_tokens(m.modules[i]).subset_of(
        Set::new(|q: Seq<char>| has_str(m.shader_defs, q)),
    ));
}

} // verus!
