//! The class-name rule table, built from raw configuration with strict
//! validation, and the validated assembly of a whole configuration.

use vstd::prelude::*;

use crate::layers::{Layer, LayerParseError, MAX_LAYERS};

verus! {

/// Errors raised while turning raw configuration into validated values.
#[derive(Debug, Clone, PartialEq, Eq)]
pub enum ConfigError {
    /// More name lists were supplied than there are layers above the base
    /// layer; carries the number of lists supplied.
    TooManyLayers(usize),
    /// A class name was supplied twice; reports the name, the layer it was
    /// being inserted into, and its position within that layer's list.
    DuplicateTitle { title: String, layer: Layer, title_index: usize },
    /// A configured layer ordinal lies outside the firmware's range.
    Layer(LayerParseError),
}

/// How many name lists fit above a base layer of ordinal `b`: supplying
/// `MAX_LAYERS - b - 1` or more lists is rejected.
pub open spec fn layer_capacity(b: int) -> int {
    MAX_LAYERS - b - 1
}

/// `(i, j)` names a title of the raw input: position `j` of name list `i`.
pub open spec fn valid_pos(ls: Seq<Seq<Seq<char>>>, i: int, j: int) -> bool {
    0 <= i < ls.len() && 0 <= j < ls[i].len()
}

/// Position `(i1, j1)` is scanned strictly before `(i2, j2)`.
pub open spec fn pos_before(i1: int, j1: int, i2: int, j2: int) -> bool {
    i1 < i2 || (i1 == i2 && j1 < j2)
}

/// The title at `(i, j)` already occurred at an earlier position.
pub open spec fn dup_at(ls: Seq<Seq<Seq<char>>>, i: int, j: int) -> bool {
    valid_pos(ls, i, j) && exists|i0: int, j0: int|
        #![trigger ls[i0][j0]]
        valid_pos(ls, i0, j0) && pos_before(i0, j0, i, j) && ls[i0][j0] == ls[i][j]
}

/// Some title of the raw input occurs twice.
pub open spec fn has_dup(ls: Seq<Seq<Seq<char>>>) -> bool {
    exists|i: int, j: int| dup_at(ls, i, j)
}

/// `(i, j)` is the first scanned position whose title already occurred.
pub open spec fn first_dup_at(ls: Seq<Seq<Seq<char>>>, i: int, j: int) -> bool {
    &&& dup_at(ls, i, j)
    &&& forall|i0: int, j0: int| pos_before(i0, j0, i, j) ==> !dup_at(ls, i0, j0)
}

/// The raw input lists `k` somewhere.
pub open spec fn listed(ls: Seq<Seq<Seq<char>>>, k: Seq<char>) -> bool {
    exists|i: int, j: int| #![trigger ls[i][j]] valid_pos(ls, i, j) && ls[i][j] == k
}

/// `m` is the mapping a successful build yields from raw lists `ls` above
/// base ordinal `b`: every title of list `i` is mapped to the layer of
/// ordinal `b + 1 + i`, and nothing else is mapped.
pub open spec fn built_from(m: Map<Seq<char>, Layer>, ls: Seq<Seq<Seq<char>>>, b: int) -> bool {
    &&& forall|i: int, j: int|
        #![trigger ls[i][j]]
        valid_pos(ls, i, j) ==> m.dom().contains(ls[i][j]) && m[ls[i][j]].spec_ordinal() == b + 1
            + i
    &&& forall|k: Seq<char>| #[trigger] m.dom().contains(k) ==> listed(ls, k)
}

/// Everything a finished build promises of its result `r`, for raw lists
/// `ls` above base ordinal `b`: exactly one outcome per input class, with
/// the capacity check first, then the fail-fast duplicate scan, then the
/// built mapping.
pub open spec fn build_result_spec(
    r: Result<ClassRules, ConfigError>,
    ls: Seq<Seq<Seq<char>>>,
    b: int,
) -> bool {
    &&& (r matches Err(ConfigError::TooManyLayers(n)) <==> ls.len() >= layer_capacity(b))
    &&& (r matches Err(ConfigError::TooManyLayers(n)) ==> n == ls.len())
    &&& (r is Ok <==> ls.len() < layer_capacity(b) && !has_dup(ls))
    &&& (r matches Err(ConfigError::DuplicateTitle { title, layer, title_index }) <==> ls.len()
        < layer_capacity(b) && has_dup(ls))
    &&& (r matches Err(ConfigError::DuplicateTitle { title, layer, title_index }) ==> {
        let i = layer.spec_ordinal() - b - 1;
        let j = title_index as int;
        &&& first_dup_at(ls, i, j)
        &&& title@ == ls[i][j]
        &&& layer.wf()
    })
    &&& (r matches Ok(rules) ==> built_from(rules@, ls, b))
}

/// First-match lookup in a sequence of `(name, layer)` entries.
pub closed spec fn lookup(s: Seq<(String, Layer)>, name: Seq<char>) -> Option<Layer>
    decreases s.len(),
{
    if s.len() == 0 {
        None
    } else if s[0].0@ == name {
        Some(s[0].1)
    } else {
        lookup(s.drop_first(), name)
    }
}

/// No class name appears in two entries.
spec fn entries_unique(s: Seq<(String, Layer)>) -> bool {
    forall|p: int, q: int|
        #![trigger s[p], s[q]]
        0 <= p < q < s.len() ==> s[p].0@ != s[q].0@
}

/// Entry pair `p` records a title scanned before cursor `(i, j)`, with the
/// layer of the list it came from.
spec fn from_prefix(p: (String, Layer), ls: Seq<Seq<Seq<char>>>, b: int, i: int, j: int) -> bool {
    exists|i0: int, j0: int|
        #![trigger ls[i0][j0]]
        valid_pos(ls, i0, j0) && pos_before(i0, j0, i, j) && p.0@ == ls[i0][j0]
            && p.1.spec_ordinal() == b + 1 + i0
}

/// Some entry holds title `k` under layer ordinal `ord`.
spec fn recorded(s: Seq<(String, Layer)>, k: Seq<char>, ord: int) -> bool {
    exists|e: int|
        #![trigger s[e]]
        0 <= e < s.len() && s[e].0@ == k && s[e].1.spec_ordinal() == ord
}

/// Every entry records a title scanned before cursor `(i, j)`.
spec fn entries_covered(
    s: Seq<(String, Layer)>,
    ls: Seq<Seq<Seq<char>>>,
    b: int,
    i: int,
    j: int,
) -> bool {
    forall|e: int| #![trigger s[e]] 0 <= e < s.len() ==> from_prefix(s[e], ls, b, i, j)
}

/// Every title scanned before cursor `(i, j)` is recorded in an entry.
spec fn prefix_recorded(
    s: Seq<(String, Layer)>,
    ls: Seq<Seq<Seq<char>>>,
    b: int,
    i: int,
    j: int,
) -> bool {
    forall|i0: int, j0: int|
        #![trigger ls[i0][j0]]
        valid_pos(ls, i0, j0) && pos_before(i0, j0, i, j) ==> recorded(s, ls[i0][j0], b + 1 + i0)
}

/// The entries record exactly the titles scanned before cursor `(i, j)`.
spec fn entries_match_prefix(
    s: Seq<(String, Layer)>,
    ls: Seq<Seq<Seq<char>>>,
    b: int,
    i: int,
    j: int,
) -> bool {
    entries_covered(s, ls, b, i, j) && prefix_recorded(s, ls, b, i, j)
}

/// No position scanned before `(i, j)` repeats an earlier title.
spec fn no_dup_before(ls: Seq<Seq<Seq<char>>>, i: int, j: int) -> bool {
    forall|i0: int, j0: int| pos_before(i0, j0, i, j) ==> !dup_at(ls, i0, j0)
}

proof fn lemma_lookup_none(s: Seq<(String, Layer)>, name: Seq<char>)
    requires
        forall|p: int| #![trigger s[p]] 0 <= p < s.len() ==> s[p].0@ != name,
    ensures
        lookup(s, name) is None,
    decreases s.len(),
{
    if s.len() > 0 {
        assert(forall|p: int|
            #![trigger s.drop_first()[p]]
            0 <= p < s.drop_first().len() ==> s.drop_first()[p] == s[p + 1]);
        lemma_lookup_none(s.drop_first(), name);
    }
}

proof fn lemma_lookup_hit(s: Seq<(String, Layer)>, name: Seq<char>, e: int)
    requires
        0 <= e < s.len(),
        s[e].0@ == name,
        forall|p: int| #![trigger s[p]] 0 <= p < e ==> s[p].0@ != name,
    ensures
        lookup(s, name) == Some(s[e].1),
    decreases e,
{
    if e > 0 {
        assert(forall|p: int|
            #![trigger s.drop_first()[p]]
            0 <= p < s.drop_first().len() ==> s.drop_first()[p] == s[p + 1]);
        lemma_lookup_hit(s.drop_first(), name, e - 1);
    }
}

proof fn lemma_lookup_some_exists(s: Seq<(String, Layer)>, name: Seq<char>)
    requires
        lookup(s, name) is Some,
    ensures
        exists|e: int|
            #![trigger s[e]]
            0 <= e < s.len() && s[e].0@ == name && s[e].1 == lookup(s, name)->Some_0,
    decreases s.len(),
{
    if s.len() > 0 && s[0].0@ != name {
        assert(forall|p: int|
            #![trigger s.drop_first()[p]]
            0 <= p < s.drop_first().len() ==> s.drop_first()[p] == s[p + 1]);
        lemma_lookup_some_exists(s.drop_first(), name);
        let e0 = choose|e: int|
            #![trigger s.drop_first()[e]]
            0 <= e < s.drop_first().len() && s.drop_first()[e].0@ == name && s.drop_first()[e].1
                == lookup(s.drop_first(), name)->Some_0;
        assert(s[e0 + 1].0@ == name && s[e0 + 1].1 == lookup(s, name)->Some_0);
    }
}

/// Recording one more title keeps the scan bookkeeping intact: the cursor
/// advances within the current list, and the scanned prefix stays free of
/// duplicates.
proof fn lemma_prefix_step(
    s: Seq<(String, Layer)>,
    t: String,
    l: Layer,
    ls: Seq<Seq<Seq<char>>>,
    b: int,
    i: int,
    j: int,
)
    requires
        entries_match_prefix(s, ls, b, i, j),
        entries_unique(s),
        no_dup_before(ls, i, j),
        valid_pos(ls, i, j),
        t@ == ls[i][j],
        l.spec_ordinal() == b + 1 + i,
        forall|p: int| #![trigger s[p]] 0 <= p < s.len() ==> s[p].0@ != t@,
    ensures
        entries_match_prefix(s.push((t, l)), ls, b, i, j + 1),
        entries_unique(s.push((t, l))),
        no_dup_before(ls, i, j + 1),
{
    let s1 = s.push((t, l));
    assert(!dup_at(ls, i, j)) by {
        if dup_at(ls, i, j) {
            let (i0, j0) = choose|i0: int, j0: int|
                #![trigger ls[i0][j0]]
                valid_pos(ls, i0, j0) && pos_before(i0, j0, i, j) && ls[i0][j0] == ls[i][j];
            assert(recorded(s, ls[i0][j0], b + 1 + i0));
            let e = choose|e: int|
                #![trigger s[e]]
                0 <= e < s.len() && s[e].0@ == ls[i0][j0] && s[e].1.spec_ordinal() == b + 1 + i0;
            assert(s[e].0@ == t@);
        }
    }
    assert forall|i0: int, j0: int| pos_before(i0, j0, i, j + 1) implies !dup_at(ls, i0, j0) by {
        if !pos_before(i0, j0, i, j) {
            assert(i0 == i && j0 == j);
        }
    }
    assert forall|e: int| #![trigger s1[e]] 0 <= e < s1.len() implies from_prefix(
        s1[e],
        ls,
        b,
        i,
        j + 1,
    ) by {
        if e < s.len() {
            assert(s1[e] == s[e]);
            assert(from_prefix(s[e], ls, b, i, j));
            let (wi, wj) = choose|i0: int, j0: int|
                #![trigger ls[i0][j0]]
                valid_pos(ls, i0, j0) && pos_before(i0, j0, i, j) && s[e].0@ == ls[i0][j0]
                    && s[e].1.spec_ordinal() == b + 1 + i0;
            assert(valid_pos(ls, wi, wj) && pos_before(wi, wj, i, j + 1) && s1[e].0@ == ls[wi][wj]
                && s1[e].1.spec_ordinal() == b + 1 + wi);
        } else {
            assert(s1[e] == (t, l));
            assert(valid_pos(ls, i, j) && pos_before(i, j, i, j + 1) && s1[e].0@ == ls[i][j]
                && s1[e].1.spec_ordinal() == b + 1 + i);
        }
    }
    assert forall|i0: int, j0: int|
        #![trigger ls[i0][j0]]
        valid_pos(ls, i0, j0) && pos_before(i0, j0, i, j + 1) implies recorded(
        s1,
        ls[i0][j0],
        b + 1 + i0,
    ) by {
        if pos_before(i0, j0, i, j) {
            assert(recorded(s, ls[i0][j0], b + 1 + i0));
            let we = choose|e: int|
                #![trigger s[e]]
                0 <= e < s.len() && s[e].0@ == ls[i0][j0] && s[e].1.spec_ordinal() == b + 1 + i0;
            assert(0 <= we < s1.len() && s1[we].0@ == ls[i0][j0] && s1[we].1.spec_ordinal() == b + 1
                + i0);
        } else {
            assert(i0 == i && j0 == j);
            assert(0 <= s.len() < s1.len() && s1[s.len() as int].0@ == ls[i0][j0] && s1[s.len() as int].1.spec_ordinal()
                == b + 1 + i0);
        }
    }
    assert forall|p: int, q: int|
        #![trigger s1[p], s1[q]]
        0 <= p < q < s1.len() implies s1[p].0@ != s1[q].0@ by {
        if q == s.len() {
            assert(s1[p] == s[p]);
        } else {
            assert(s1[p] == s[p] && s1[q] == s[q]);
        }
    }
}

/// Finishing one name list moves the cursor to the head of the next.
proof fn lemma_prefix_next_list(s: Seq<(String, Layer)>, ls: Seq<Seq<Seq<char>>>, b: int, i: int)
    requires
        0 <= i < ls.len(),
        entries_match_prefix(s, ls, b, i, ls[i].len() as int),
        no_dup_before(ls, i, ls[i].len() as int),
    ensures
        entries_match_prefix(s, ls, b, i + 1, 0),
        no_dup_before(ls, i + 1, 0),
{
    let jend = ls[i].len() as int;
    assert forall|e: int| #![trigger s[e]] 0 <= e < s.len() implies from_prefix(
        s[e],
        ls,
        b,
        i + 1,
        0,
    ) by {
        assert(from_prefix(s[e], ls, b, i, jend));
        let (wi, wj) = choose|i0: int, j0: int|
            #![trigger ls[i0][j0]]
            valid_pos(ls, i0, j0) && pos_before(i0, j0, i, jend) && s[e].0@ == ls[i0][j0]
                && s[e].1.spec_ordinal() == b + 1 + i0;
        assert(valid_pos(ls, wi, wj) && pos_before(wi, wj, i + 1, 0) && s[e].0@ == ls[wi][wj]
            && s[e].1.spec_ordinal() == b + 1 + wi);
    }
    assert forall|i0: int, j0: int|
        #![trigger ls[i0][j0]]
        valid_pos(ls, i0, j0) && pos_before(i0, j0, i + 1, 0) implies recorded(
        s,
        ls[i0][j0],
        b + 1 + i0,
    ) by {
        assert(pos_before(i0, j0, i, jend));
    }
    assert forall|i0: int, j0: int| pos_before(i0, j0, i + 1, 0) implies !dup_at(ls, i0, j0) by {
        if dup_at(ls, i0, j0) {
            assert(valid_pos(ls, i0, j0));
            assert(pos_before(i0, j0, i, jend));
        }
    }
}

/// A complete, duplicate-free scan record is exactly the built mapping.
proof fn lemma_scan_built(rules: ClassRules, ls: Seq<Seq<Seq<char>>>, b: int)
    requires
        entries_match_prefix(rules.entries@, ls, b, ls.len() as int, 0),
        entries_unique(rules.entries@),
    ensures
        built_from(rules@, ls, b),
{
    let s = rules.entries@;
    assert forall|i0: int, j0: int| #![trigger ls[i0][j0]] valid_pos(ls, i0, j0) implies rules@.dom().contains(
        ls[i0][j0],
    ) && rules@[ls[i0][j0]].spec_ordinal() == b + 1 + i0 by {
        assert(pos_before(i0, j0, ls.len() as int, 0));
        assert(recorded(s, ls[i0][j0], b + 1 + i0));
        let e = choose|e: int|
            #![trigger s[e]]
            0 <= e < s.len() && s[e].0@ == ls[i0][j0] && s[e].1.spec_ordinal() == b + 1 + i0;
        assert(forall|p: int| #![trigger s[p]] 0 <= p < e ==> s[p].0@ != ls[i0][j0]);
        lemma_lookup_hit(s, ls[i0][j0], e);
    }
    assert forall|k: Seq<char>| #[trigger] rules@.dom().contains(k) implies listed(ls, k) by {
        lemma_lookup_some_exists(s, k);
        let e = choose|e: int| #![trigger s[e]] 0 <= e < s.len() && s[e].0@ == k;
        assert(from_prefix(s[e], ls, b, ls.len() as int, 0));
        let (wi, wj) = choose|i0: int, j0: int|
            #![trigger ls[i0][j0]]
            valid_pos(ls, i0, j0) && pos_before(i0, j0, ls.len() as int, 0) && s[e].0@
                == ls[i0][j0] && s[e].1.spec_ordinal() == b + 1 + i0;
        assert(valid_pos(ls, wi, wj) && ls[wi][wj] == k);
    }
}

/// A scan that reached the end without finding a duplicate rules every
/// duplicate out.
proof fn lemma_scan_no_dup(ls: Seq<Seq<Seq<char>>>)
    requires
        no_dup_before(ls, ls.len() as int, 0),
    ensures
        !has_dup(ls),
{
    if has_dup(ls) {
        let (i0, j0) = choose|i0: int, j0: int| dup_at(ls, i0, j0);
        assert(pos_before(i0, j0, ls.len() as int, 0));
    }
}

/// The class-name → layer rule table. Built once by `with_raw_layers`,
/// immutable thereafter; no class name is mapped under two layers.
#[derive(Debug, Clone)]
pub struct ClassRules {
    entries: Vec<(String, Layer)>,
}

impl View for ClassRules {
    type V = Map<Seq<char>, Layer>;

    closed spec fn view(&self) -> Map<Seq<char>, Layer> {
        Map::new(
            |name: Seq<char>| lookup(self.entries@, name) is Some,
            |name: Seq<char>| lookup(self.entries@, name)->Some_0,
        )
    }
}

fn find_in_entries(entries: &Vec<(String, Layer)>, name: &String) -> (r: bool)
    ensures
        r <==> exists|p: int|
            #![trigger entries@[p]]
            0 <= p < entries@.len() && entries@[p].0@ == name@,
{
    let mut idx: usize = 0;
    while idx < entries.len()
        invariant
            idx <= entries@.len(),
            forall|p: int| #![trigger entries@[p]] 0 <= p < idx as int ==> entries@[p].0@ != name@,
        decreases entries@.len() - idx as int,
    {
        if entries[idx].0 == *name {
            return true;
        }
        idx = idx + 1;
    }
    false
}

impl ClassRules {
    /// Builds the rule table. List `i` of `layers` holds the class names for
    /// the layer of ordinal `base_layer + 1 + i`. Fails with `TooManyLayers`
    /// when more lists are supplied than layers remain above the base, before
    /// any name is examined; fails with `DuplicateTitle` at the first name,
    /// in scan order, that was already inserted (from this list or an earlier
    /// one) — never silently overwriting.
    pub fn with_raw_layers(layers: Vec<Vec<String>>, base_layer: Layer) -> (r: Result<
        ClassRules,
        ConfigError,
    >)
        requires
            base_layer.wf(),
        ensures
            build_result_spec(r, layers.deep_view(), base_layer.spec_ordinal()),
    {
        let base: usize = base_layer.ordinal() as usize;
        if layers.len() >= MAX_LAYERS - base - 1 {
            return Err(ConfigError::TooManyLayers(layers.len()));
        }
        let ghost ls = layers.deep_view();
        let ghost b = base_layer.spec_ordinal();
        let mut entries: Vec<(String, Layer)> = Vec::new();
        let mut i: usize = 0;
        while i < layers.len()
            invariant
                ls == layers.deep_view(),
                b == base_layer.spec_ordinal(),
                base as int == b,
                0 <= b < MAX_LAYERS as int,
                ls.len() == layers@.len(),
                ls.len() < layer_capacity(b),
                i as int <= ls.len(),
                entries_match_prefix(entries@, ls, b, i as int, 0),
                entries_unique(entries@),
                no_dup_before(ls, i as int, 0),
            decreases ls.len() - i as int,
        {
            proof {
                assert(base + 1 + i < MAX_LAYERS);
            }
            let layer = match Layer::try_from((base + 1 + i) as u8) {
                Ok(l) => l,
                Err(_) => {
                    proof {
                        assert(false);
                    }
                    Layer::zero()
                },
            };
            let names = &layers[i];
            assert(ls[i as int] == names.deep_view());
            let mut j: usize = 0;
            while j < names.len()
                invariant
                    ls == layers.deep_view(),
                    b == base_layer.spec_ordinal(),
                    0 <= b < MAX_LAYERS as int,
                    ls.len() < layer_capacity(b),
                    0 <= (i as int) < ls.len(),
                    names@ == layers@[i as int]@,
                    ls[i as int] == names.deep_view(),
                    j as int <= ls[i as int].len(),
                    layer.spec_ordinal() == b + 1 + i as int,
                    layer.wf(),
                    entries_match_prefix(entries@, ls, b, i as int, j as int),
                    entries_unique(entries@),
                    no_dup_before(ls, i as int, j as int),
                decreases ls[i as int].len() - j as int,
            {
                let title = &names[j];
                assert(title@ == ls[i as int][j as int]);
                if find_in_entries(&entries, title) {
                    proof {
                        let iv = i as int;
                        let jv = j as int;
                        let p = choose|p: int|
                            #![trigger entries@[p]]
                            0 <= p < entries@.len() && entries@[p].0@ == title@;
                        assert(from_prefix(entries@[p], ls, b, iv, jv));
                        let (wi, wj) = choose|i0: int, j0: int|
                            #![trigger ls[i0][j0]]
                            valid_pos(ls, i0, j0) && pos_before(i0, j0, iv, jv) && entries@[p].0@
                                == ls[i0][j0] && entries@[p].1.spec_ordinal() == b + 1 + i0;
                        assert(valid_pos(ls, wi, wj) && pos_before(wi, wj, iv, jv) && ls[wi][wj]
                            == ls[iv][jv]);
                        assert(dup_at(ls, iv, jv));
                        assert(first_dup_at(ls, iv, jv));
                    }
                    return Err(
                        ConfigError::DuplicateTitle {
                            title: title.clone(),
                            layer,
                            title_index: j,
                        },
                    );
                }
                let ghost entries0 = entries@;
                entries.push((title.clone(), layer));
                proof {
                    let pushed = entries@[entries0.len() as int];
                    assert(pushed.0@ == title@ && pushed.1 == layer);
                    lemma_prefix_step(entries0, pushed.0, pushed.1, ls, b, i as int, j as int);
                    assert(entries@ == entries0.push((pushed.0, pushed.1)));
                }
                j = j + 1;
            }
            proof {
                lemma_prefix_next_list(entries@, ls, b, i as int);
            }
            i = i + 1;
        }
        let rules = ClassRules { entries };
        proof {
            lemma_scan_no_dup(ls);
            lemma_scan_built(rules, ls, b);
        }
        Ok(rules)
    }

    /// Looks a class name up: the layer it was configured under, if any.
    /// Exact, case-sensitive match.
    pub fn layer(&self, class: &str) -> (r: Option<Layer>)
        ensures
            r == (if self@.dom().contains(class@) {
                Some(self@[class@])
            } else {
                None
            }),
    {
        let key: String = class.to_owned();
        let mut idx: usize = 0;
        while idx < self.entries.len()
            invariant
                key@ == class@,
                idx <= self.entries@.len(),
                forall|p: int|
                    #![trigger self.entries@[p]]
                    0 <= p < idx as int ==> self.entries@[p].0@ != key@,
            decreases self.entries@.len() - idx as int,
        {
            if self.entries[idx].0 == key {
                proof {
                    lemma_lookup_hit(self.entries@, class@, idx as int);
                }
                return Some(self.entries[idx].1);
            }
            idx = idx + 1;
        }
        proof {
            lemma_lookup_none(self.entries@, class@);
        }
        None
    }
}

/// The base-layer ordinal a raw configuration selects: the override where
/// one is given, else zero.
pub open spec fn spec_base_ordinal(raw_base_layer: Option<u8>) -> int {
    match raw_base_layer {
        Some(v) => v as int,
        None => 0,
    }
}

/// A validated configuration: the rule table plus the device identity and
/// the layers the switching policy needs.
#[derive(Debug, Clone)]
pub struct Config {
    /// The class-name → layer rule table.
    pub rules: ClassRules,
    /// USB vendor id of the keyboard to drive.
    pub vendor_id: u16,
    /// USB product id of the keyboard to drive.
    pub product_id: u16,
    /// The layer fallen back to when focus leaves ruled windows.
    pub base_layer: Layer,
    /// The layer applied when the vendor's game marker is detected, if that
    /// behaviour is configured.
    pub detect_steam_games_layer: Option<Layer>,
}

impl Config {
    /// Assembles a validated configuration from the plain values a parsed
    /// configuration file supplies. The base-layer override and the
    /// vendor-marker layer are validated first, in that order; then the rule
    /// table is built above the base layer.
    pub fn from_raw(
        vendor_id: u16,
        product_id: u16,
        raw_base_layer: Option<u8>,
        raw_steam_layer: Option<u8>,
        raw_layers: Vec<Vec<String>>,
    ) -> (r: Result<Config, ConfigError>)
        ensures
            ({
                let ls = raw_layers.deep_view();
                let b = spec_base_ordinal(raw_base_layer);
                let base_bad = raw_base_layer matches Some(v) && (v as int) >= MAX_LAYERS as int;
                let steam_bad = raw_steam_layer matches Some(v) && (v as int) >= MAX_LAYERS as int;
                &&& (r matches Err(ConfigError::Layer(e)) <==> base_bad || steam_bad)
                &&& (r matches Err(ConfigError::Layer(e)) ==> e.spec_value() == (if base_bad {
                    raw_base_layer->Some_0
                } else {
                    raw_steam_layer->Some_0
                }))
                &&& (r matches Err(ConfigError::TooManyLayers(n)) <==> !base_bad && !steam_bad
                    && ls.len() >= layer_capacity(b))
                &&& (r matches Err(ConfigError::TooManyLayers(n)) ==> n == ls.len())
                &&& (r matches Err(ConfigError::DuplicateTitle { title, layer, title_index })
                    <==> !base_bad && !steam_bad && ls.len() < layer_capacity(b) && has_dup(ls))
                &&& (r matches Err(ConfigError::DuplicateTitle { title, layer, title_index }) ==> {
                    let i = layer.spec_ordinal() - b - 1;
                    let j = title_index as int;
                    &&& first_dup_at(ls, i, j)
                    &&& title@ == ls[i][j]
                })
                &&& (r is Ok <==> !base_bad && !steam_bad && ls.len() < layer_capacity(b)
                    && !has_dup(ls))
                &&& (r matches Ok(c) ==> {
                    &&& c.vendor_id == vendor_id
                    &&& c.product_id == product_id
                    &&& c.base_layer.wf()
                    &&& c.base_layer.spec_ordinal() == b
                    &&& (match raw_steam_layer {
                        None => c.detect_steam_games_layer is None,
                        Some(v) => c.detect_steam_games_layer matches Some(l) && l.spec_ordinal()
                            == v as int && l.wf(),
                    })
                    &&& built_from(c.rules@, ls, b)
                })
            }),
    {
        let base_layer = match raw_base_layer {
            None => Layer::zero(),
            Some(v) => match Layer::try_from(v) {
                Ok(l) => l,
                Err(e) => {
                    return Err(ConfigError::Layer(e));
                },
            },
        };
        let detect_steam_games_layer = match raw_steam_layer {
            None => None,
            Some(v) => match Layer::try_from(v) {
                Ok(l) => Some(l),
                Err(e) => {
                    return Err(ConfigError::Layer(e));
                },
            },
        };
        let rules = match ClassRules::with_raw_layers(raw_layers, base_layer) {
            Ok(rules) => rules,
            Err(e) => {
                return Err(e);
            },
        };
        Ok(Config { rules, vendor_id, product_id, base_layer, detect_steam_games_layer })
    }
}

/// Building is deterministic: any two mappings built from the same raw
/// layers and the same base layer are one and the same mapping.
pub proof fn lemma_build_deterministic(
    m1: Map<Seq<char>, Layer>,
    m2: Map<Seq<char>, Layer>,
    ls: Seq<Seq<Seq<char>>>,
    b: int,
)
    requires
        built_from(m1, ls, b),
        built_from(m2, ls, b),
    ensures
        m1 == m2,
{
    assert forall|k: Seq<char>| #[trigger] m1.dom().contains(k) implies m2.dom().contains(k) by {
        assert(listed(ls, k));
        let (wi, wj) = choose|i: int, j: int|
            #![trigger ls[i][j]]
            valid_pos(ls, i, j) && ls[i][j] == k;
        assert(m2.dom().contains(ls[wi][wj]));
    }
    assert forall|k: Seq<char>| #[trigger] m2.dom().contains(k) implies m1.dom().contains(k) by {
        assert(listed(ls, k));
        let (wi, wj) = choose|i: int, j: int|
            #![trigger ls[i][j]]
            valid_pos(ls, i, j) && ls[i][j] == k;
        assert(m1.dom().contains(ls[wi][wj]));
    }
    assert forall|k: Seq<char>| #[trigger] m1.dom().contains(k) implies m1[k] == m2[k] by {
        assert(listed(ls, k));
        let (wi, wj) = choose|i: int, j: int|
            #![trigger ls[i][j]]
            valid_pos(ls, i, j) && ls[i][j] == k;
        assert(m1[ls[wi][wj]].spec_ordinal() == b + 1 + wi);
        assert(m2[ls[wi][wj]].spec_ordinal() == b + 1 + wi);
        crate::layers::lemma_layer_determined_by_ordinal(m1[k], m2[k]);
    }
    assert(m1 =~= m2);
}

/// Every configured name is mapped, to the layer of the list it stands in.
pub proof fn lemma_built_lists_all_names(
    m: Map<Seq<char>, Layer>,
    ls: Seq<Seq<Seq<char>>>,
    b: int,
    i: int,
    j: int,
)
    requires
        built_from(m, ls, b),
        valid_pos(ls, i, j),
    ensures
        m.dom().contains(ls[i][j]),
        m[ls[i][j]].spec_ordinal() == b + 1 + i,
{
}

/// A name that no list holds is not mapped.
pub proof fn lemma_built_omits_unlisted(
    m: Map<Seq<char>, Layer>,
    ls: Seq<Seq<Seq<char>>>,
    b: int,
    k: Seq<char>,
)
    requires
        built_from(m, ls, b),
        !listed(ls, k),
    ensures
        !m.dom().contains(k),
{
}

/// Two distinct positions holding the same title are a duplicate — in the
/// same list or across lists alike.
pub proof fn lemma_two_positions_are_dup(
    ls: Seq<Seq<Seq<char>>>,
    i1: int,
    j1: int,
    i2: int,
    j2: int,
)
    requires
        valid_pos(ls, i1, j1),
        valid_pos(ls, i2, j2),
        !(i1 == i2 && j1 == j2),
        ls[i1][j1] == ls[i2][j2],
    ensures
        has_dup(ls),
{
    if pos_before(i1, j1, i2, j2) {
        assert(dup_at(ls, i2, j2));
    } else {
        assert(pos_before(i2, j2, i1, j1));
        assert(dup_at(ls, i1, j1));
    }
}

/// The reported duplicate title really is duplicated: it also stands at an
/// earlier position than the reported one.
pub proof fn lemma_first_dup_occurs_twice(ls: Seq<Seq<Seq<char>>>, i: int, j: int)
    requires
        first_dup_at(ls, i, j),
    ensures
        valid_pos(ls, i, j),
        exists|i0: int, j0: int|
            #![trigger ls[i0][j0]]
            valid_pos(ls, i0, j0) && pos_before(i0, j0, i, j) && ls[i0][j0] == ls[i][j],
{
}

} // verus!
