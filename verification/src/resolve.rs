//! The import-graph resolver: compose every namespace-identified unit
//! into the external engine so that each unit's transitive imports are
//! composed before it, each unit at most once. A missing import fails
//! the whole resolution; a cyclic import is detected by an explicit
//! visiting guard instead of recursing without bound.
use vstd::prelude::*;
use vstd::string::*;

use crate::engine::{add_composable_module, composer_new, composer_modules,
    ENGINE_MODULE_LIMIT};
use crate::model::DefEntry;
use crate::text::str_eq;
use crate::ImportDeclaration;

verus! {

/// One shader unit as handed to the resolver: its raw text and
/// provenance, its declared namespace identity, its declared imports,
/// and the conditional-compilation tokens its text references.
#[derive(Debug, PartialEq)]
pub struct ShaderSource {
    pub path: String,
    pub source: String,
    pub shader_defs: Vec<String>,
    pub docsrs_url: String,
}

/// A unit together with its declared metadata. A unit without a name is
/// standalone: it has no import identity and stays out of the shared
/// namespace graph.
#[derive(Debug, PartialEq)]
pub struct Shader {
    pub name: Option<String>,
    pub source: ShaderSource,
    pub imports: Vec<ImportDeclaration>,
    pub defines: Vec<DefEntry>,
}

/// The units split by identity: the namespace-identified ones, each
/// name kept once (a later unit of the same name replaces an earlier
/// one), and the standalone ones.
#[derive(Debug, PartialEq)]
pub struct Shaders {
    pub composable_modules: Vec<Shader>,
    pub standalone_shaders: Vec<Shader>,
}

/// A resolution failure.
#[derive(Debug)]
pub enum ComposeError {
    /// An import names a unit absent from the collection; resolution of
    /// the whole tree stops here.
    MissingImport(String),
    /// An import cycle was found at this unit.
    CyclicImport(String),
    /// The engine reported a composition error; it is carried verbatim.
    Engine(naga_oil::compose::ComposerError),
}

impl ComposeError {
    /// The failure as text; an engine error keeps only its kind here,
    /// the carried error holds the detail.
    pub fn message(&self) -> (r: String)
        ensures
            match self {
                ComposeError::MissingImport(n) => r@ == "shader not found: "@ + n@,
                ComposeError::CyclicImport(n) => r@ == "cyclic shader import: "@ + n@,
                ComposeError::Engine(_) => r@ == "shader composition failed"@,
            },
    {
        match self {
            ComposeError::MissingImport(n) => {
                let mut s = "shader not found: ".to_owned();
                s.append(n.as_str());
                s
            },
            ComposeError::CyclicImport(n) => {
                let mut s = "cyclic shader import: ".to_owned();
                s.append(n.as_str());
                s
            },
            ComposeError::Engine(_) => "shader composition failed".to_owned(),
        }
    }
}

/// Whether the unit is namespace-identified.
pub open spec fn is_named(u: Shader) -> bool {
    u.name is Some
}

/// The unit's declared name.
pub open spec fn name_view(u: Shader) -> Seq<char> {
    u.name->Some_0@
}

/// Whether some unit of the collection declares the name `n`.
pub open spec fn has_unit(us: Seq<Shader>, n: Seq<char>) -> bool {
    exists|i: int| 0 <= i < us.len() && is_named(#[trigger] us[i]) && name_view(us[i]) == n
}

/// No two units declare the same name.
pub open spec fn unique_names(us: Seq<Shader>) -> bool {
    forall|i: int, j: int|
        0 <= i < j < us.len() && is_named(#[trigger] us[i]) && is_named(#[trigger] us[j])
            ==> name_view(us[i]) != name_view(us[j])
}

/// Whether unit `i` declares an import of the name `n`.
pub open spec fn imports_name(us: Seq<Shader>, i: int, n: Seq<char>) -> bool {
    exists|k: int| 0 <= k < us[i].imports@.len() && (#[trigger] us[i].imports@[k]).import@ == n
}

/// Whether unit `i` imports unit `j` directly.
pub open spec fn edge(us: Seq<Shader>, i: int, j: int) -> bool {
    &&& 0 <= i < us.len()
    &&& 0 <= j < us.len()
    &&& is_named(us[j])
    &&& imports_name(us, i, name_view(us[j]))
}

/// Whether unit `j` is a transitive import of unit `i`, over a path of
/// at most `steps` further hops.
pub open spec fn reaches(us: Seq<Shader>, i: int, j: int, steps: nat) -> bool
    decreases steps,
{
    if edge(us, i, j) {
        true
    } else if steps == 0 {
        false
    } else {
        exists|m: int| #[trigger] edge(us, i, m) && reaches(us, m, j, (steps - 1) as nat)
    }
}

/// A composition order respects the import graph: each composed unit's
/// direct imports were composed strictly before it.
pub open spec fn order_ok(us: Seq<Shader>, order: Seq<usize>) -> bool {
    forall|p: int, j: int|
        0 <= p < order.len() && 0 <= j < us.len() && #[trigger] edge(us, order[p] as int, j)
            ==> exists|q: int| 0 <= q < p && #[trigger] order[q] == j as usize
}

/// A composition order covers each unit exactly once.
pub open spec fn order_complete(us: Seq<Shader>, order: Seq<usize>) -> bool {
    &&& order.len() == us.len()
    &&& forall|p: int| 0 <= p < order.len() ==> (#[trigger] order[p]) < us.len()
    &&& forall|p: int, q: int| 0 <= p < q < order.len() ==> order[p] != order[q]
    &&& forall|u: int|
        0 <= u < us.len() ==> #[trigger] order.contains(u as usize)
}

/// Dependency ordering extends to transitive imports: in an order that
/// respects direct imports, every unit stands strictly after each of
/// its transitive imports.
pub proof fn lemma_order_respects_transitive_imports(
    us: Seq<Shader>,
    order: Seq<usize>,
    p: int,
    j: int,
    steps: nat,
)
    requires
        us.len() <= usize::MAX,
        order_ok(us, order),
        order_complete(us, order),
        0 <= p < order.len(),
        0 <= j < us.len(),
        reaches(us, order[p] as int, j, steps),
    ensures
        exists|q: int| 0 <= q < p && #[trigger] order[q] == j as usize,
    decreases steps,
{
    if edge(us, order[p] as int, j) {
    } else {
        let m = choose|m: int| #[trigger] edge(us, order[p] as int, m) && reaches(
            us,
            m,
            j,
            (steps - 1) as nat,
        );
        let q = choose|q: int| 0 <= q < p && #[trigger] order[q] == m as usize;
        lemma_order_respects_transitive_imports(us, order, q, j, (steps - 1) as nat);
        let q2 = choose|q2: int| 0 <= q2 < q && #[trigger] order[q2] == j as usize;
        assert(0 <= q2 < p && order[q2] == j as usize);
    }
}

/// How many entries are true.
pub open spec fn count_trues(bs: Seq<bool>) -> nat
    decreases bs.len(),
{
    if bs.len() == 0 {
        0
    } else {
        count_trues(bs.drop_last()) + (if bs.last() {
            1nat
        } else {
            0nat
        })
    }
}

proof fn lemma_count_trues_bound(bs: Seq<bool>)
    ensures
        count_trues(bs) <= bs.len(),
    decreases bs.len(),
{
    if bs.len() > 0 {
        lemma_count_trues_bound(bs.drop_last());
    }
}

proof fn lemma_count_trues_update(bs: Seq<bool>, i: int, v: bool)
    requires
        0 <= i < bs.len(),
        bs[i] != v,
    ensures
        count_trues(bs.update(i, v)) == count_trues(bs) + (if v {
            1int
        } else {
            -1int
        }),
    decreases bs.len(),
{
    if i == bs.len() - 1 {
        assert(bs.update(i, v).drop_last() =~= bs.drop_last());
    } else {
        assert(bs.update(i, v).drop_last() =~= bs.drop_last().update(i, v));
        lemma_count_trues_update(bs.drop_last(), i, v);
    }
}

proof fn lemma_count_trues_missing(bs: Seq<bool>, i: int)
    requires
        0 <= i < bs.len(),
        !bs[i],
    ensures
        count_trues(bs) < bs.len(),
    decreases bs.len(),
{
    lemma_count_trues_bound(bs.drop_last());
    if i < bs.len() - 1 {
        lemma_count_trues_missing(bs.drop_last(), i);
    }
}

/// The set of names the collection's units declare.
pub open spec fn all_names(us: Seq<Shader>) -> Set<Seq<char>> {
    Set::new(|n: Seq<char>| has_unit(us, n))
}

/// The set of names of the units composed so far.
pub open spec fn done_names(us: Seq<Shader>, done: Seq<bool>) -> Set<Seq<char>> {
    Set::new(
        |n: Seq<char>|
            exists|i: int|
                0 <= i < us.len() && #[trigger] done[i] && is_named(us[i]) && name_view(us[i])
                    == n,
    )
}

proof fn lemma_reaches_mono(us: Seq<Shader>, i: int, j: int, n: nat, m: nat)
    requires
        reaches(us, i, j, n),
        n <= m,
    ensures
        reaches(us, i, j, m),
    decreases n,
{
    if !edge(us, i, j) {
        let mid = choose|mid: int| #[trigger] edge(us, i, mid) && reaches(
            us,
            mid,
            j,
            (n - 1) as nat,
        );
        lemma_reaches_mono(us, mid, j, (n - 1) as nat, (m - 1) as nat);
    }
}

proof fn lemma_reaches_along(us: Seq<Shader>, p: Seq<int>, tgt: int)
    requires
        p.len() >= 1,
        forall|t: int| 0 <= t < p.len() ==> 0 <= #[trigger] p[t] < us.len(),
        forall|t: int| 0 <= t < p.len() - 1 ==> edge(us, #[trigger] p[t], p[t + 1]),
        edge(us, p.last(), tgt),
    ensures
        reaches(us, p[0], tgt, p.len() as nat),
    decreases p.len(),
{
    if p.len() == 1 {
        assert(edge(us, p[0], tgt));
    } else {
        let q = p.skip(1);
        assert forall|t: int| 0 <= t < q.len() - 1 implies edge(us, #[trigger] q[t], q[t + 1]) by {
            assert(q[t] == p[t + 1]);
            assert(q[t + 1] == p[t + 2]);
        }
        assert(q.last() == p.last());
        lemma_reaches_along(us, q, tgt);
        assert(edge(us, p[0], p[1]));
        assert(q[0] == p[1]);
        assert(reaches(us, p[1], tgt, q.len() as nat));
        if !edge(us, p[0], tgt) {
            assert(reaches(us, p[0], tgt, p.len() as nat)) by {
                assert(edge(us, p[0], p[1]) && reaches(us, p[1], tgt, (p.len() - 1) as nat));
            }
        }
    }
}

proof fn lemma_distinct_ints_below(p: Seq<int>, n: int)
    requires
        n >= 0,
        forall|t: int| 0 <= t < p.len() ==> 0 <= #[trigger] p[t] < n,
        forall|t: int, q: int| 0 <= t < q < p.len() ==> p[t] != p[q],
    ensures
        p.len() <= n,
{
    p.unique_seq_to_set();
    let range = vstd::set_lib::set_int_range(0, n);
    vstd::set_lib::lemma_int_range(0, n);
    assert(p.to_set().subset_of(range)) by {
        assert forall|v: int| p.to_set().contains(v) implies range.contains(v) by {}
    }
    vstd::set_lib::lemma_len_subset(p.to_set(), range);
}

fn find_unit(us: &Vec<Shader>, n: &str) -> (r: Option<usize>)
    ensures
        match r {
            Some(i) => i < us@.len() && is_named(us@[i as int]) && name_view(us@[i as int]) == n@,
            None => !has_unit(us@, n@),
        },
{
    let mut i: usize = 0;
    while i != us.len()
        invariant
            i <= us@.len(),
            forall|t: int|
                0 <= t < i ==> !(is_named(#[trigger] us@[t]) && name_view(us@[t]) == n@),
        decreases us@.len() - i,
    {
        match &us[i].name {
            Some(nm) => {
                if str_eq(nm.as_str(), n) {
                    return Some(i);
                }
            },
            None => {},
        }
        i = i + 1;
    }
    None
}

/// The invariant the visit keeps: the composed order lists distinct,
/// in-range units, each composed after its direct imports, and a
/// composed unit's imports are all composed too.
pub open spec fn visit_inv(
    us: Seq<Shader>,
    done: Seq<bool>,
    order: Seq<usize>,
) -> bool {
    &&& done.len() == us.len()
    &&& order_ok(us, order)
    &&& forall|p: int| 0 <= p < order.len() ==> (#[trigger] order[p]) < us.len()
    &&& forall|p: int, q: int| 0 <= p < q < order.len() ==> order[p] != order[q]
    &&& forall|x: int| 0 <= x < us.len() ==> (done[x] <==> order.contains(x as usize))
    &&& forall|x: int, j: int|
        0 <= x < us.len() && done[x] && 0 <= j < us.len() && #[trigger] edge(us, x, j) ==> done[j]
    &&& forall|x: int, k: int|
        0 <= x < us.len() && done[x] && 0 <= k < us[x].imports@.len() ==> has_unit(
            us,
            (#[trigger] us[x].imports@[k]).import@,
        )
}

#[verifier::loop_isolation(false)]
fn visit(
    composer: &mut naga_oil::compose::Composer,
    us: &Vec<Shader>,
    u: usize,
    done: &mut Vec<bool>,
    visiting: &mut Vec<bool>,
    order: &mut Vec<usize>,
    Ghost(stack): Ghost<Seq<int>>,
) -> (r: Result<(), ComposeError>)
    requires
        u < us@.len(),
        us@.len() <= ENGINE_MODULE_LIMIT,
        forall|i: int| 0 <= i < us@.len() ==> is_named(#[trigger] us@[i]),
        unique_names(us@),
        old(visiting)@.len() == us@.len(),
        !old(visiting)@[u as int],
        visit_inv(us@, old(done)@, old(order)@),
        composer_modules(*old(composer)).finite(),
        composer_modules(*old(composer)) == done_names(us@, old(done)@),
        composer_modules(*old(composer)).len() == count_trues(old(done)@),
        // the visiting units form one import chain ending just above `u`
        forall|t: int| 0 <= t < stack.len() ==> 0 <= #[trigger] stack[t] < us@.len(),
        forall|t: int, q: int| 0 <= t < q < stack.len() ==> stack[t] != stack[q],
        forall|x: int| 0 <= x < us@.len() ==> (old(visiting)@[x] <==> stack.contains(x)),
        forall|t: int| 0 <= t < stack.len() - 1 ==> edge(us@, #[trigger] stack[t], stack[t + 1]),
        stack.len() > 0 ==> edge(us@, stack.last(), u as int),
    ensures
        final(visiting)@ == old(visiting)@,
        final(done)@.len() == us@.len(),
        r is Ok ==> {
            &&& visit_inv(us@, final(done)@, final(order)@)
            &&& final(done)@[u as int]
            &&& forall|x: int| 0 <= x < us@.len() && old(done)@[x] ==> final(done)@[x]
            &&& forall|x: int|
                0 <= x < us@.len() && old(visiting)@[x] ==> final(done)@[x] == old(done)@[x]
            &&& final(order)@.len() >= old(order)@.len()
            &&& old(order)@ =~= final(order)@.take(old(order)@.len() as int)
            &&& composer_modules(*final(composer)).finite()
            &&& composer_modules(*final(composer)) == done_names(us@, final(done)@)
            &&& composer_modules(*final(composer)).len() == count_trues(final(done)@)
        },
        r matches Err(ComposeError::MissingImport(n)) ==> !has_unit(us@, n@) && exists|i: int,
        k: int|
            0 <= i < us@.len() && 0 <= k < us@[i].imports@.len() && (
            #[trigger] us@[i].imports@[k]).import@ == n@,
        r matches Err(ComposeError::CyclicImport(n)) ==> exists|i: int|
            0 <= i < us@.len() && is_named(#[trigger] us@[i]) && name_view(us@[i]) == n@
                && reaches(us@, i, i, us@.len() as nat),
    decreases us@.len() - count_trues(old(visiting)@),
{
    let _units_len = us.len();
    if done[u] {
        return Ok(());
    }
    let ghost vis0 = visiting@;
    visiting.set(u, true);
    proof {
        lemma_count_trues_update(vis0, u as int, true);
        lemma_count_trues_bound(visiting@);
    }
    let imports = &us[u].imports;
    let mut k: usize = 0;
    let ghost done_at_entry = done@;
    while k != imports.len()
        invariant
            k <= imports@.len(),
            visiting@ == vis0.update(u as int, true),
            done@.len() == us@.len(),
            order@.len() >= 0,
            !done@[u as int],
            composer_modules(*composer).finite(),
            composer_modules(*composer) == done_names(us@, done@),
            composer_modules(*composer).len() == count_trues(done@),
            forall|x: int|
                0 <= x < us@.len() && vis0[x] ==> done@[x] == done_at_entry[x],
            visit_inv(us@, done@, order@),
            forall|x: int| 0 <= x < us@.len() && done_at_entry[x] ==> done@[x],
            done_at_entry =~= old(done)@,
            old(order)@ =~= order@.take(old(order)@.len() as int),
            order@.len() >= old(order)@.len(),
            forall|t: int|
                0 <= t < k ==> exists|y: int|
                    0 <= y < us@.len() && is_named(#[trigger] us@[y]) && name_view(us@[y]) == (
                    #[trigger] us@[u as int].imports@[t]).import@ && done@[y],
        decreases imports@.len() - k,
    {
        let import_name = &imports[k].import;
        match find_unit(us, import_name.as_str()) {
            None => {
                visiting.set(u, false);
                proof {
                    assert(visiting@ =~= vis0);
                    assert(us@[u as int].imports@[k as int].import@ == import_name@);
                }
                return Err(ComposeError::MissingImport(import_name.clone()));
            },
            Some(y) => {
                if visiting[y] {
                    let nm = match &us[y].name {
                        Some(nm) => nm.clone(),
                        None => {
                            proof {
                                assert(false);
                            }
                            String::new()
                        },
                    };
                    visiting.set(u, false);
                    proof {
                        assert(visiting@ =~= vis0);
                        assert(is_named(us@[y as int]) && name_view(us@[y as int]) == nm@);
                        // the visiting chain plus this unit closes into a cycle at y
                        let stack2 = stack.push(u as int);
                        assert(edge(us@, u as int, y as int)) by {
                            assert(us@[u as int].imports@[k as int].import@ == name_view(
                                us@[y as int],
                            ));
                        }
                        assert forall|t: int| 0 <= t < stack2.len() - 1 implies edge(
                            us@,
                            #[trigger] stack2[t],
                            stack2[t + 1],
                        ) by {
                            if t < stack.len() - 1 {
                                assert(stack2[t] == stack[t]);
                                assert(stack2[t + 1] == stack[t + 1]);
                            } else {
                                assert(stack2[t] == stack.last());
                                assert(stack2[t + 1] == u as int);
                            }
                        }
                        assert(!stack.contains(u as int));
                        let q: int = if y == u {
                            stack2.len() - 1
                        } else {
                            assert(vis0.update(u as int, true)[y as int]);
                            assert(vis0[y as int]);
                            assert(stack.contains(y as int));
                            let q0 = choose|q0: int|
                                0 <= q0 < stack.len() && #[trigger] stack[q0] == y as int;
                            q0
                        };
                        assert(0 <= q < stack2.len() && stack2[q] == y as int);
                        let p = stack2.skip(q);
                        assert(p.len() >= 1);
                        assert(p[0] == y as int);
                        assert(p.last() == stack2.last());
                        assert(stack2.last() == u as int);
                        assert forall|t: int| 0 <= t < p.len() - 1 implies edge(
                            us@,
                            #[trigger] p[t],
                            p[t + 1],
                        ) by {
                            assert(p[t] == stack2[q + t]);
                            assert(p[t + 1] == stack2[q + t + 1]);
                        }
                        lemma_reaches_along(us@, p, y as int);
                        assert forall|t: int, q2: int|
                            0 <= t < q2 < stack2.len() implies stack2[t] != stack2[q2] by {
                            if q2 == stack2.len() - 1 {
                                if stack2[t] == u as int {
                                    assert(stack.contains(u as int));
                                }
                            }
                        }
                        lemma_distinct_ints_below(stack2, us@.len() as int);
                        lemma_reaches_mono(
                            us@,
                            y as int,
                            y as int,
                            p.len() as nat,
                            us@.len() as nat,
                        );
                    }
                    return Err(ComposeError::CyclicImport(nm));
                }
                let ghost done_before = done@;
                let ghost order_before = order@;
                proof {
                    let stack2 = stack.push(u as int);
                    assert(!stack.contains(u as int));
                    assert forall|t: int, q: int|
                        0 <= t < q < stack2.len() implies stack2[t] != stack2[q] by {
                        if q == stack2.len() - 1 {
                            if stack2[t] == u as int {
                                assert(stack.contains(u as int));
                            }
                        }
                    }
                    assert forall|x: int|
                        0 <= x < us@.len() implies (visiting@[x] <==> stack2.contains(x)) by {
                        if x == u as int {
                            assert(stack2[stack2.len() - 1] == x);
                        } else {
                            if stack.contains(x) {
                                let w = choose|w: int|
                                    0 <= w < stack.len() && #[trigger] stack[w] == x;
                                assert(stack2[w] == x);
                            }
                            if stack2.contains(x) {
                                let w = choose|w: int|
                                    0 <= w < stack2.len() && #[trigger] stack2[w] == x;
                                assert(w < stack.len());
                                assert(stack[w] == x);
                            }
                        }
                    }
                    assert forall|t: int| 0 <= t < stack2.len() - 1 implies edge(
                        us@,
                        #[trigger] stack2[t],
                        stack2[t + 1],
                    ) by {
                        if t < stack.len() - 1 {
                            assert(stack2[t] == stack[t]);
                            assert(stack2[t + 1] == stack[t + 1]);
                        } else {
                            assert(stack2[t] == stack.last());
                            assert(stack2[t + 1] == u as int);
                        }
                    }
                    assert(edge(us@, stack2.last(), y as int)) by {
                        assert(stack2.last() == u as int);
                        assert(us@[u as int].imports@[k as int].import@ == name_view(
                            us@[y as int],
                        ));
                    }
                }
                let res = visit(composer, us, y, done, visiting, order,
                    Ghost(stack.push(u as int)));
                match res {
                    Ok(()) => {
                        proof {
                            assert(done@[y as int]);
                            assert(visiting@[u as int]);
                            assert(done@[u as int] == done_before[u as int]);
                            assert forall|x: int|
                                0 <= x < us@.len() && vis0[x] implies done@[x]
                                == done_at_entry[x] by {
                                assert(visiting@[x]);
                                assert(done@[x] == done_before[x]);
                            }
                            assert(order_before =~= order@.take(order_before.len() as int));
                            assert(old(order)@ =~= order@.take(old(order)@.len() as int)) by {
                                assert(old(order)@ =~= order_before.take(
                                    old(order)@.len() as int,
                                ));
                                assert(order@.take(order_before.len() as int).take(
                                    old(order)@.len() as int,
                                ) =~= order@.take(old(order)@.len() as int));
                            }
                        }
                    },
                    Err(e) => {
                        visiting.set(u, false);
                        proof {
                            assert(visiting@ =~= vis0);
                        }
                        return Err(e);
                    },
                }
            },
        }
        k = k + 1;
    }
    // every direct import is composed; register this unit with the engine
    // under its declared name
    let unit_name: &str = match &us[u].name {
        Some(nm) => nm.as_str(),
        None => {
            proof {
                assert(false);
            }
            ""
        },
    };
    proof {
        lemma_count_trues_missing(done@, u as int);
    }
    let ghost comp0 = composer_modules(*composer);
    let eng = add_composable_module(
        composer,
        unit_name,
        us[u].source.source.as_str(),
        us[u].source.path.as_str(),
        &us[u].defines,
    );
    match eng {
        Ok(()) => {},
        Err(e) => {
            visiting.set(u, false);
            proof {
                assert(visiting@ =~= vis0);
            }
            return Err(ComposeError::Engine(e));
        },
    }
    let ghost order0 = order@;
    let ghost done0 = done@;
    order.push(u);
    done.set(u, true);
    visiting.set(u, false);
    proof {
        assert(visiting@ =~= vis0);
        // the engine's table gains exactly this unit's name
        assert(unit_name@ == name_view(us@[u as int]));
        assert(!comp0.contains(unit_name@)) by {
            if comp0.contains(unit_name@) {
                let i = choose|i: int|
                    0 <= i < us@.len() && #[trigger] done0[i] && is_named(us@[i]) && name_view(
                        us@[i],
                    ) == unit_name@;
                assert(i != u as int);
            }
        }
        assert(composer_modules(*composer) == comp0.insert(unit_name@));
        vstd::set::axiom_set_insert_len(comp0, unit_name@);
        lemma_count_trues_update(done0, u as int, true);
        assert(composer_modules(*composer) =~= done_names(us@, done@)) by {
            assert forall|n: Seq<char>|
                comp0.insert(unit_name@).contains(n) implies done_names(us@, done@).contains(
                n,
            ) by {
                if n == unit_name@ {
                    assert(done@[u as int] && is_named(us@[u as int]) && name_view(
                        us@[u as int],
                    ) == n);
                } else {
                    let i = choose|i: int|
                        0 <= i < us@.len() && #[trigger] done0[i] && is_named(us@[i])
                            && name_view(us@[i]) == n;
                    assert(done@[i]);
                }
            }
            assert forall|n: Seq<char>|
                done_names(us@, done@).contains(n) implies comp0.insert(unit_name@).contains(
                n,
            ) by {
                let i = choose|i: int|
                    0 <= i < us@.len() && #[trigger] done@[i] && is_named(us@[i]) && name_view(
                        us@[i],
                    ) == n;
                if i == u as int {
                } else {
                    assert(done0[i]);
                }
            }
        }
        assert(order@ =~= order0.push(u));
        assert(old(order)@ =~= order@.take(old(order)@.len() as int));
        // the new order still respects direct imports
        assert forall|p: int, j: int|
            0 <= p < order@.len() && 0 <= j < us@.len() && #[trigger] edge(
                us@,
                order@[p] as int,
                j,
            ) implies exists|q: int| 0 <= q < p && #[trigger] order@[q] == j as usize by {
            if p < order0.len() {
                assert(order@[p] == order0[p]);
                assert(edge(us@, order0[p] as int, j));
                let q = choose|q: int| 0 <= q < p && #[trigger] order0[q] == j as usize;
                assert(order@[q] == j as usize);
            } else {
                assert(order@[p] == u);
                assert(edge(us@, u as int, j));
                let k2 = choose|k2: int|
                    0 <= k2 < us@[u as int].imports@.len() && (
                    #[trigger] us@[u as int].imports@[k2]).import@ == name_view(us@[j]);
                let y = choose|y: int|
                    0 <= y < us@.len() && is_named(#[trigger] us@[y]) && name_view(us@[y])
                        == us@[u as int].imports@[k2].import@ && done0[y];
                assert(y == j) by {
                    if y != j {
                        assert(name_view(us@[y]) == name_view(us@[j]));
                    }
                }
                assert(done0[j]);
                assert(order0.contains(j as usize));
                let q = choose|q: int| 0 <= q < order0.len() && #[trigger] order0[q] == j as usize;
                assert(order@[q] == j as usize);
            }
        }
        // distinctness: u was not composed before
        assert(!done0[u as int]);
        assert forall|p: int, q: int| 0 <= p < q < order@.len() implies order@[p] != order@[q] by {
            if q == order@.len() - 1 {
                if order@[p] == u {
                    assert(order0.contains(u));
                    assert(done0[u as int]);
                }
            }
        }
        // membership
        assert forall|x: int| 0 <= x < us@.len() implies (done@[x] <==> order@.contains(
            x as usize,
        )) by {
            if x == u as int {
                assert(order@[order@.len() - 1] == u);
                assert(order@.contains(u));
            } else {
                if order@.contains(x as usize) {
                    let q = choose|q: int|
                        0 <= q < order@.len() && #[trigger] order@[q] == x as usize;
                    assert((x as usize) as int == x);
                    assert(q < order0.len());
                    assert(order0[q] == x as usize);
                    assert(order0.contains(x as usize));
                } else {
                    if order0.contains(x as usize) {
                        let q = choose|q: int|
                            0 <= q < order0.len() && #[trigger] order0[q] == x as usize;
                        assert(order@[q] == x as usize);
                    }
                }
            }
        }
        // every import of the newly composed unit resolves to a unit
        assert forall|x: int, k: int|
            0 <= x < us@.len() && done@[x] && 0 <= k < us@[x].imports@.len() implies has_unit(
            us@,
            (#[trigger] us@[x].imports@[k]).import@,
        ) by {
            if x == u as int {
                let y = choose|y: int|
                    0 <= y < us@.len() && is_named(#[trigger] us@[y]) && name_view(us@[y])
                        == us@[u as int].imports@[k].import@ && done0[y];
                assert(has_unit(us@, us@[u as int].imports@[k].import@));
            }
        }
        // closure
        assert forall|x: int, j: int|
            0 <= x < us@.len() && done@[x] && 0 <= j < us@.len() && #[trigger] edge(
                us@,
                x,
                j,
            ) implies done@[j] by {
            if x == u as int {
                let k2 = choose|k2: int|
                    0 <= k2 < us@[u as int].imports@.len() && (
                    #[trigger] us@[u as int].imports@[k2]).import@ == name_view(us@[j]);
                let y = choose|y: int|
                    0 <= y < us@.len() && is_named(#[trigger] us@[y]) && name_view(us@[y])
                        == us@[u as int].imports@[k2].import@ && done0[y];
                assert(y == j) by {
                    if y != j {
                        assert(name_view(us@[y]) == name_view(us@[j]));
                    }
                }
            }
        }
    }
    Ok(())
}

/// Compose every unit into the engine, each strictly after all of its
/// transitive imports and each exactly once; the returned order lists
/// the units as composed. A unit already composed in this run is not
/// composed again. Fails with the missing name when an import names no
/// unit of the collection, with the unit's name when an import cycle is
/// found, and with the engine's own error when composition fails there.
#[verifier::loop_isolation(false)]
pub fn compose_all(us: &Vec<Shader>) -> (r: Result<
    (naga_oil::compose::Composer, Vec<usize>),
    ComposeError,
>)
    requires
        forall|i: int| 0 <= i < us@.len() ==> is_named(#[trigger] us@[i]),
        unique_names(us@),
        us@.len() <= ENGINE_MODULE_LIMIT,
    ensures
        us@.len() == 0 ==> r is Ok,
        r matches Ok(cv) ==> order_ok(us@, cv.1@) && order_complete(us@, cv.1@),
        r is Ok ==> forall|i: int, k: int|
            0 <= i < us@.len() && 0 <= k < us@[i].imports@.len() ==> has_unit(
                us@,
                (#[trigger] us@[i].imports@[k]).import@,
            ),
        // the returned engine knows exactly the units' declared names
        r matches Ok(cv) ==> composer_modules(cv.0).finite() && composer_modules(cv.0)
            == all_names(us@),
        r matches Err(ComposeError::MissingImport(n)) ==> !has_unit(us@, n@) && exists|i: int,
        k: int|
            0 <= i < us@.len() && 0 <= k < us@[i].imports@.len() && (
            #[trigger] us@[i].imports@[k]).import@ == n@,
        r matches Err(ComposeError::CyclicImport(n)) ==> exists|i: int|
            0 <= i < us@.len() && is_named(#[trigger] us@[i]) && name_view(us@[i]) == n@
                && reaches(us@, i, i, us@.len() as nat),
        // an acyclic collection whose imports all resolve is refused
        // only by the engine itself
        ((forall|i: int| 0 <= i < us@.len() ==> !reaches(us@, i, i, us@.len() as nat)) && (
        forall|i: int, k: int|
            0 <= i < us@.len() && 0 <= k < us@[i].imports@.len() ==> has_unit(
                us@,
                (#[trigger] us@[i].imports@[k]).import@,
            ))) ==> (r is Ok || r matches Err(ComposeError::Engine(_))),
{
    let mut composer = composer_new();
    let n = us.len();
    let mut done: Vec<bool> = Vec::new();
    let mut visiting: Vec<bool> = Vec::new();
    let mut order: Vec<usize> = Vec::new();
    let mut i: usize = 0;
    while i != n
        invariant
            i <= n,
            done@.len() == i,
            visiting@.len() == i,
            forall|t: int| 0 <= t < i ==> !(#[trigger] done@[t]),
            forall|t: int| 0 <= t < i ==> !(#[trigger] visiting@[t]),
        decreases n - i,
    {
        done.push(false);
        visiting.push(false);
        i = i + 1;
    }
    proof {
        assert(order@ =~= Seq::<usize>::empty());
        assert forall|x: int| 0 <= x < us@.len() implies (done@[x] <==> order@.contains(
            x as usize,
        )) by {
            if order@.contains(x as usize) {
                let q = choose|q: int| 0 <= q < order@.len() && #[trigger] order@[q] == x as usize;
            }
        }
        assert(visit_inv(us@, done@, order@));
        assert(composer_modules(composer) =~= done_names(us@, done@));
        assert(count_trues(done@) == 0) by {
            lemma_count_trues_all_false(done@);
        }
        assert(composer_modules(composer).len() == 0);
    }
    let mut u: usize = 0;
    while u != n
        invariant
            u <= n,
            done@.len() == us@.len(),
            visiting@.len() == us@.len(),
            forall|t: int| 0 <= t < us@.len() ==> !(#[trigger] visiting@[t]),
            visit_inv(us@, done@, order@),
            forall|t: int| 0 <= t < u ==> #[trigger] done@[t],
            composer_modules(composer).finite(),
            composer_modules(composer) == done_names(us@, done@),
            composer_modules(composer).len() == count_trues(done@),
        decreases n - u,
    {
        proof {
            assert forall|x: int|
                0 <= x < us@.len() implies (visiting@[x] <==> Seq::<int>::empty().contains(
                x,
            )) by {
                if Seq::<int>::empty().contains(x) {
                    let w = choose|w: int|
                        0 <= w < Seq::<int>::empty().len() && Seq::<int>::empty()[w] == x;
                }
            }
        }
        match visit(&mut composer, us, u, &mut done, &mut visiting, &mut order,
            Ghost(Seq::empty())) {
            Ok(()) => {},
            Err(e) => {
                return Err(e);
            },
        }
        u = u + 1;
    }
    proof {
        // every unit is composed, so the order is complete
        assert forall|x: int| 0 <= x < us@.len() implies #[trigger] order@.contains(
            x as usize,
        ) by {
            assert(done@[x]);
        }
        // distinct entries within range bound the length
        lemma_distinct_in_range_len(order@, us@.len() as int);
        // and the engine's table is exactly the declared names
        assert(composer_modules(composer) =~= all_names(us@)) by {
            assert forall|nm: Seq<char>|
                done_names(us@, done@).contains(nm) implies all_names(us@).contains(nm) by {}
            assert forall|nm: Seq<char>|
                all_names(us@).contains(nm) implies done_names(us@, done@).contains(nm) by {
                let i = choose|i: int|
                    0 <= i < us@.len() && is_named(#[trigger] us@[i]) && name_view(us@[i]) == nm;
                assert(done@[i]);
            }
        }
    }
    Ok((composer, order))
}

proof fn lemma_count_trues_all_false(bs: Seq<bool>)
    requires
        forall|t: int| 0 <= t < bs.len() ==> !(#[trigger] bs[t]),
    ensures
        count_trues(bs) == 0,
    decreases bs.len(),
{
    if bs.len() > 0 {
        lemma_count_trues_all_false(bs.drop_last());
    }
}

/// A sequence of distinct values below `n` has at most `n` entries; with
/// every value present it has exactly `n`.
proof fn lemma_distinct_in_range_len(s: Seq<usize>, n: int)
    requires
        0 <= n <= usize::MAX,
        forall|p: int| 0 <= p < s.len() ==> (#[trigger] s[p]) < n,
        forall|p: int, q: int| 0 <= p < q < s.len() ==> s[p] != s[q],
        forall|u: int| #![trigger s.contains(u as usize)] 0 <= u < n ==> s.contains(u as usize),
    ensures
        s.len() == n,
{
    let vals = Set::new(|v: usize| s.contains(v));
    let range = Set::new(|v: usize| (v as int) < n);
    assert(vals =~= range) by {
        assert forall|v: usize| range.contains(v) implies vals.contains(v) by {
            assert(((v as int) as usize) == v);
            assert(s.contains((v as int) as usize));
        }
        assert forall|v: usize| vals.contains(v) implies range.contains(v) by {
            let p = choose|p: int| 0 <= p < s.len() && #[trigger] s[p] == v;
        }
    }
    s.unique_seq_to_set();
    assert(s.to_set() =~= vals) by {
        assert forall|v: usize| s.to_set().contains(v) implies vals.contains(v) by {}
        assert forall|v: usize| vals.contains(v) implies s.to_set().contains(v) by {}
    }
    assert(s.to_set().len() == s.len());
    lemma_range_set_len(n);
    assert(range.len() == n);
}

/// The set of `usize` values below `n` has `n` elements.
proof fn lemma_range_set_len(n: int)
    requires
        0 <= n <= usize::MAX,
    ensures
        Set::new(|v: usize| (v as int) < n).len() == n,
        Set::new(|v: usize| (v as int) < n).finite(),
    decreases n,
{
    if n == 0 {
        assert(Set::new(|v: usize| (v as int) < 0) =~= Set::<usize>::empty());
    } else {
        lemma_range_set_len(n - 1);
        assert(Set::new(|v: usize| (v as int) < n) =~= Set::new(
            |v: usize| (v as int) < n - 1,
        ).insert((n - 1) as usize));
    }
}

/// Whether unit `i` is the last of the collection to declare its name.
pub open spec fn last_declaration(us: Seq<Shader>, i: int) -> bool {
    &&& 0 <= i < us.len()
    &&& is_named(us[i])
    &&& forall|k: int|
        i < k < us.len() && is_named(#[trigger] us[k]) ==> name_view(us[k]) != name_view(us[i])
}

/// The unnamed units of the collection, in order.
pub open spec fn standalone_of(us: Seq<Shader>) -> Seq<Shader>
    decreases us.len(),
{
    if us.len() == 0 {
        Seq::empty()
    } else {
        (if !is_named(us[0]) {
            seq![us[0]]
        } else {
            Seq::empty()
        }) + standalone_of(us.skip(1))
    }
}

proof fn lemma_standalone_push(us: Seq<Shader>, x: Shader)
    ensures
        standalone_of(us.push(x)) == standalone_of(us) + (if !is_named(x) {
            seq![x]
        } else {
            Seq::<Shader>::empty()
        }),
    decreases us.len(),
{
    let tail: Seq<Shader> = if !is_named(x) {
        seq![x]
    } else {
        Seq::empty()
    };
    if us.len() == 0 {
        assert(us.push(x).len() == 1);
        assert(us.push(x)[0] == x);
        assert(us.push(x).skip(1) =~= Seq::<Shader>::empty());
        assert(standalone_of(Seq::<Shader>::empty()) == Seq::<Shader>::empty());
        assert(standalone_of(us) == Seq::<Shader>::empty());
        assert(standalone_of(us.push(x)) == tail + standalone_of(Seq::<Shader>::empty()));
        assert(standalone_of(us.push(x)) =~= standalone_of(us) + tail);
    } else {
        let head: Seq<Shader> = if !is_named(us[0]) {
            seq![us[0]]
        } else {
            Seq::empty()
        };
        assert(us.push(x)[0] == us[0]);
        assert(us.push(x).skip(1) =~= us.skip(1).push(x));
        assert(standalone_of(us.push(x)) == head + standalone_of(us.skip(1).push(x)));
        lemma_standalone_push(us.skip(1), x);
        assert(standalone_of(us) == head + standalone_of(us.skip(1)));
        assert(standalone_of(us.push(x)) =~= standalone_of(us) + tail);
    }
}

/// The input position a kept unit came from: the position of the last
/// input unit declaring that name.
pub open spec fn origin_of(us: Seq<Shader>, kept: Seq<Shader>, j: int) -> int {
    choose|i: int| #[trigger] last_declaration(us, i) && kept[j] == us[i]
}

/// Split the discovered units by identity: namespace-identified ones
/// feed the shared graph, each declared name kept once with the last
/// unit that declared it; unnamed ones are standalone and are kept, in
/// order, only when standalone documentation is asked for.
#[verifier::loop_isolation(false)]
pub fn partition_units(units: Vec<Shader>, document_standalone_shaders: bool) -> (r: Shaders)
    ensures
        forall|i: int|
            0 <= i < r.composable_modules@.len() ==> is_named(#[trigger] r.composable_modules@[i]),
        unique_names(r.composable_modules@),
        // each kept unit is the last input unit declaring its name
        forall|j: int|
            #![trigger r.composable_modules@[j]]
            0 <= j < r.composable_modules@.len() ==> last_declaration(
                units@,
                origin_of(units@, r.composable_modules@, j),
            ) && r.composable_modules@[j] == units@[origin_of(units@, r.composable_modules@, j)],
        // every declared name survives
        forall|i: int|
            0 <= i < units@.len() && is_named(#[trigger] units@[i]) ==> has_unit(
                r.composable_modules@,
                name_view(units@[i]),
            ),
        forall|i: int|
            0 <= i < r.standalone_shaders@.len() ==> !is_named(#[trigger] r.standalone_shaders@[i]),
        document_standalone_shaders ==> r.standalone_shaders@ == standalone_of(units@),
        document_standalone_shaders == false ==> r.standalone_shaders@.len() == 0,
{
    let ghost units0 = units@;
    let mut composable: Vec<Shader> = Vec::new();
    let mut standalone: Vec<Shader> = Vec::new();
    let mut rest = units;
    let ghost mut origins: Seq<int> = Seq::empty();
    while rest.len() != 0
        invariant
            rest@.len() <= units0.len(),
            rest@ =~= units0.skip(units0.len() - rest@.len()),
            forall|i: int| 0 <= i < composable@.len() ==> is_named(#[trigger] composable@[i]),
            unique_names(composable@),
            // each kept unit comes from the input, at its recorded origin,
            // and no later processed unit redeclared its name
            origins.len() == composable@.len(),
            forall|j: int|
                #![trigger origins[j]]
                0 <= j < origins.len() ==> 0 <= origins[j] < units0.len() - rest@.len()
                    && composable@[j] == units0[origins[j]] && is_named(units0[origins[j]]),
            forall|j: int, k: int|
                #![trigger origins[j], units0[k]]
                0 <= j < origins.len() && origins[j] < k < units0.len() - rest@.len()
                    && is_named(units0[k]) ==> name_view(units0[k]) != name_view(
                    units0[origins[j]],
                ),
            forall|i: int|
                0 <= i < units0.len() - rest@.len() && is_named(#[trigger] units0[i])
                    ==> has_unit(composable@, name_view(units0[i])),
            forall|i: int| 0 <= i < standalone@.len() ==> !is_named(#[trigger] standalone@[i]),
            document_standalone_shaders ==> standalone@ == standalone_of(
                units0.take(units0.len() - rest@.len()),
            ),
            document_standalone_shaders == false ==> standalone@.len() == 0,
        decreases rest@.len(),
    {
        let ghost taken = units0.len() - rest@.len();
        let ghost prefix = units0.take(taken);
        let unit = rest.remove(0);
        proof {
            assert(unit == units0[taken]);
            assert(rest@ =~= units0.skip(taken + 1));
            assert(units0.take(taken + 1) =~= prefix.push(units0[taken]));
        }
        match &unit.name {
            Some(nm) => {
                let ghost nmv = nm@;
                proof {
                    assert(is_named(units0[taken]) && name_view(units0[taken]) == nmv);
                }
                let existing = find_unit(&composable, nm.as_str());
                match existing {
                    Some(idx) => {
                        let ghost before = composable@;
                        let _old = composable.remove(idx);
                        composable.insert(idx, unit);
                        proof {
                            assert(composable@ =~= before.update(idx as int, units0[taken]));
                            assert(is_named(composable@[idx as int]));
                            assert(name_view(composable@[idx as int]) == name_view(
                                before[idx as int],
                            ));
                            assert forall|i: int, j: int|
                                0 <= i < j < composable@.len() && is_named(
                                    #[trigger] composable@[i],
                                ) && is_named(#[trigger] composable@[j]) implies name_view(
                                composable@[i],
                            ) != name_view(composable@[j]) by {
                                assert(is_named(before[i]) && is_named(before[j]));
                                assert(name_view(composable@[i]) == name_view(before[i]));
                                assert(name_view(composable@[j]) == name_view(before[j]));
                            }
                            let ghost origins0 = origins;
                            origins = origins.update(idx as int, taken);
                            assert forall|j: int, k: int|
                                0 <= j < origins.len() && origins[j] < k < taken + 1 && is_named(
                                    #[trigger] units0[k],
                                ) implies name_view(units0[k]) != name_view(
                                units0[#[trigger] origins[j]],
                            ) by {
                                if j != idx as int {
                                    assert(origins[j] == origins0[j]);
                                    assert(composable@[j] == before[j]);
                                    if k == taken {
                                        // the redeclared name is the replaced entry's,
                                        // which differs from every other kept name
                                        assert(name_view(units0[k]) == nmv);
                                        assert(name_view(before[j]) == name_view(
                                            units0[origins0[j]],
                                        ));
                                        assert(name_view(composable@[idx as int]) == nmv);
                                        assert(name_view(composable@[j]) != nmv);
                                    }
                                }
                            }
                            assert forall|i: int|
                                0 <= i < taken + 1 && is_named(#[trigger] units0[i])
                                    implies has_unit(composable@, name_view(units0[i])) by {
                                if i < taken {
                                    let w = choose|w: int|
                                        0 <= w < before.len() && is_named(#[trigger] before[w])
                                            && name_view(before[w]) == name_view(units0[i]);
                                    assert(name_view(composable@[w]) == name_view(before[w]));
                                    assert(is_named(composable@[w]));
                                } else {
                                    assert(name_view(composable@[idx as int]) == nmv);
                                }
                            }
                            if document_standalone_shaders {
                                lemma_standalone_push(prefix, units0[taken]);
                                assert(standalone@ =~= standalone_of(units0.take(taken + 1)));
                            }
                        }
                    },
                    None => {
                        let ghost before = composable@;
                        composable.push(unit);
                        proof {
                            assert(composable@ =~= before.push(units0[taken]));
                            assert forall|i: int, j: int|
                                0 <= i < j < composable@.len() && is_named(
                                    #[trigger] composable@[i],
                                ) && is_named(#[trigger] composable@[j]) implies name_view(
                                composable@[i],
                            ) != name_view(composable@[j]) by {
                                if j == composable@.len() - 1 {
                                    assert(!has_unit(before, name_view(composable@[j])));
                                    assert(is_named(before[i]));
                                }
                            }
                            let ghost origins0 = origins;
                            origins = origins.push(taken);
                            assert forall|j: int, k: int|
                                0 <= j < origins.len() && origins[j] < k < taken + 1 && is_named(
                                    #[trigger] units0[k],
                                ) implies name_view(units0[k]) != name_view(
                                units0[#[trigger] origins[j]],
                            ) by {
                                if j < origins0.len() {
                                    assert(origins[j] == origins0[j]);
                                    assert(composable@[j] == before[j]);
                                    if k == taken {
                                        // the fresh name was absent from the kept set
                                        assert(name_view(units0[k]) == nmv);
                                        assert(!has_unit(before, nmv));
                                        assert(name_view(before[j]) == name_view(
                                            units0[origins0[j]],
                                        ));
                                        assert(is_named(before[j]));
                                        if name_view(before[j]) == nmv {
                                            assert(has_unit(before, nmv));
                                        }
                                    }
                                }
                            }
                            assert forall|i: int|
                                0 <= i < taken + 1 && is_named(#[trigger] units0[i])
                                    implies has_unit(composable@, name_view(units0[i])) by {
                                if i < taken {
                                    let w = choose|w: int|
                                        0 <= w < before.len() && is_named(#[trigger] before[w])
                                            && name_view(before[w]) == name_view(units0[i]);
                                    assert(composable@[w] == before[w]);
                                } else {
                                    assert(name_view(composable@[composable@.len() - 1]) == nmv);
                                }
                            }
                            if document_standalone_shaders {
                                lemma_standalone_push(prefix, units0[taken]);
                                assert(standalone@ =~= standalone_of(units0.take(taken + 1)));
                            }
                        }
                    },
                }
            },
            None => {
                if document_standalone_shaders {
                    let ghost st0 = standalone@;
                    standalone.push(unit);
                    proof {
                        lemma_standalone_push(prefix, units0[taken]);
                        assert(standalone@ =~= st0.push(units0[taken]));
                        assert(standalone@ =~= standalone_of(units0.take(taken + 1)));
                    }
                } else {
                    proof {
                        assert(units0.take(taken + 1) =~= prefix.push(units0[taken]));
                    }
                }
            },
        }
    }
    proof {
        assert(units0.take(units0.len() as int) =~= units0);
        assert forall|j: int|
            #![trigger composable@[j]]
            0 <= j < composable@.len() implies exists|i: int|
            #[trigger] last_declaration(units0, i) && composable@[j] == units0[i] by {
            let i = origins[j];
            assert(last_declaration(units0, i)) by {
                assert forall|k: int|
                    i < k < units0.len() && is_named(#[trigger] units0[k]) implies name_view(
                    units0[k],
                ) != name_view(units0[i]) by {
                    assert(origins[j] < k < units0.len() - rest@.len());
                }
            }
            assert(composable@[j] == units0[i]);
        }
    }
    let r = Shaders { composable_modules: composable, standalone_shaders: standalone };
    proof {
        assert forall|j: int|
            #![trigger r.composable_modules@[j]]
            0 <= j < r.composable_modules@.len() implies last_declaration(
            units0,
            origin_of(units0, r.composable_modules@, j),
        ) && r.composable_modules@[j] == units0[origin_of(units0, r.composable_modules@, j)] by {
            let i = origins[j];
            assert(last_declaration(units0, i)) by {
                assert forall|k: int|
                    i < k < units0.len() && is_named(#[trigger] units0[k]) implies name_view(
                    units0[k],
                ) != name_view(units0[i]) by {
                    assert(origins[j] < k < units0.len() - rest@.len());
                }
            }
            assert(r.composable_modules@[j] == units0[i]);
            assert(last_declaration(units0, origin_of(units0, r.composable_modules@, j))
                && r.composable_modules@[j] == units0[origin_of(units0, r.composable_modules@, j)])
                by {
                assert(last_declaration(units0, i) && r.composable_modules@[j] == units0[i]);
            }
        }
    }
    r
}

} // verus!
