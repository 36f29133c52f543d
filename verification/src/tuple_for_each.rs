//! The `#[tuple_for_each(BaseTrait)]` attribute: which items it accepts,
//! which statements it generates for each field of a tuple struct, and
//! what the generated `len`, `is_empty` and `for_each` methods do.
use vstd::prelude::*;

verus! {

/// Why the attribute refuses its input.
#[derive(PartialEq, Eq, Structural, Clone, Copy, Debug)]
pub enum ForEachError {
    /// The attribute is attached to something other than a tuple struct.
    NotStruct,
    /// No base trait was given in the attribute.
    MissingBase,
}

impl ForEachError {
    /// The compile error reported for this refusal.
    pub fn message(&self) -> (r: &'static str)
        ensures
            *self == ForEachError::NotStruct ==> r@
                == "attribute `tuple_for_each` can only be attached to tuple structs"@,
            *self == ForEachError::MissingBase ==> r@
                == "expect a base trait in attribute `tuple_for_each`: e.g. #[tuple_for_each(BaseTrait)]"@,
    {
        match self {
            ForEachError::NotStruct => "attribute `tuple_for_each` can only be attached to tuple structs",
            ForEachError::MissingBase => "expect a base trait in attribute `tuple_for_each`: e.g. #[tuple_for_each(BaseTrait)]",
        }
    }
}

/// The attributes of one field, each given by its path when the path is a
/// single identifier (`None` otherwise).
#[derive(Clone, Debug)]
pub struct FieldAttrs {
    pub paths: Vec<Option<Vec<u8>>>,
}

/// What is generated for one field: its position in the tuple and the
/// positions of its `cfg` attributes, which guard each generated statement
/// (`l += 1`, `f(&self.i)`, `f(&mut self.i)`).
#[derive(Clone, Debug)]
pub struct FieldPlan {
    pub index: usize,
    pub cfg_attrs: Vec<usize>,
}

/// The bytes of `cfg`.
pub open spec fn cfg_name() -> Seq<u8> {
    seq![0x63u8, 0x66u8, 0x67u8]
}

/// Whether attribute path `p` is the single identifier `cfg`.
pub open spec fn is_cfg(p: Option<Seq<u8>>) -> bool {
    p == Some(cfg_name())
}

/// The view of an attribute list.
pub open spec fn paths_view(a: FieldAttrs) -> Seq<Option<Seq<u8>>> {
    a.paths@.map_values(|p: Option<Vec<u8>>| match p {
        Some(v) => Some(v@),
        None => None,
    })
}

/// `cfg` lists, in order, the positions of the `cfg` attributes in `paths`.
pub open spec fn cfg_positions(paths: Seq<Option<Seq<u8>>>, cfg: Seq<usize>) -> bool {
    &&& forall|k: int| 0 <= k < cfg.len() ==> 0 <= #[trigger] cfg[k] < paths.len() && is_cfg(paths[cfg[k] as int])
    &&& forall|j: int, k: int| 0 <= j < k < cfg.len() ==> cfg[j] < cfg[k]
    &&& forall|t: int| 0 <= t < paths.len() && is_cfg(paths[t]) ==> exists|k: int| 0 <= k < cfg.len() && #[trigger] cfg[k] == t
}

fn is_cfg_path(p: &Option<Vec<u8>>) -> (r: bool)
    ensures
        r == is_cfg(match p {
            Some(v) => Some(v@),
            None => None,
        }),
{
    match p {
        None => false,
        Some(v) => {
            if v.len() != 3 {
                return false;
            }
            let r = v[0] == 0x63u8 && v[1] == 0x66u8 && v[2] == 0x67u8;
            if r {
                assert(v@ =~= cfg_name());
            } else {
                assert(v@[0] != cfg_name()[0] || v@[1] != cfg_name()[1] || v@[2] != cfg_name()[2]);
            }
            r
        },
    }
}

fn cfg_attrs_of(a: &FieldAttrs) -> (r: Vec<usize>)
    ensures
        cfg_positions(paths_view(*a), r@),
{
    let ghost paths = paths_view(*a);
    let mut r: Vec<usize> = Vec::new();
    let mut t: usize = 0;
    while t < a.paths.len()
        invariant
            paths == paths_view(*a),
            paths.len() == a.paths@.len(),
            t <= paths.len(),
            forall|k: int| 0 <= k < r@.len() ==> 0 <= #[trigger] r@[k] < t && is_cfg(paths[r@[k] as int]),
            forall|j: int, k: int| 0 <= j < k < r@.len() ==> r@[j] < r@[k],
            forall|u: int| 0 <= u < t && is_cfg(paths[u]) ==> exists|k: int| 0 <= k < r@.len() && #[trigger] r@[k] == u,
        decreases paths.len() - t,
    {
        let ghost r0 = r@;
        if is_cfg_path(&a.paths[t]) {
            r.push(t);
            assert forall|u: int| 0 <= u < t + 1 && is_cfg(paths[u]) implies exists|k: int|
                0 <= k < r@.len() && #[trigger] r@[k] == u by {
                if u < t {
                    let k = choose|k: int| 0 <= k < r0.len() && #[trigger] r0[k] == u;
                    assert(r@[k] == u);
                } else {
                    assert(r@[r@.len() - 1] == u);
                }
            }
        }
        t = t + 1;
    }
    r
}

/// Plans the expansion of `#[tuple_for_each(base)]` on an item: the item
/// must be a tuple struct, one whose fields are unnamed (checked first),
/// and a base trait must be given; then one entry per field, in order,
/// carrying the field's `cfg` attributes.
pub fn tuple_for_each(is_tuple_struct: bool, base_is_empty: bool, fields: &Vec<FieldAttrs>) -> (r: Result<Vec<FieldPlan>, ForEachError>)
    ensures
        !is_tuple_struct ==> r == Err::<Vec<FieldPlan>, ForEachError>(ForEachError::NotStruct),
        is_tuple_struct && base_is_empty ==> r == Err::<Vec<FieldPlan>, ForEachError>(ForEachError::MissingBase),
        is_tuple_struct && !base_is_empty ==> r is Ok,
        r is Ok ==> {
            let plan = r->Ok_0@;
            &&& plan.len() == fields@.len()
            &&& forall|i: int| 0 <= i < plan.len() ==> {
                &&& (#[trigger] plan[i]).index == i
                &&& cfg_positions(paths_view(fields@[i]), plan[i].cfg_attrs@)
            }
        },
{
    if !is_tuple_struct {
        return Err(ForEachError::NotStruct);
    }
    if base_is_empty {
        return Err(ForEachError::MissingBase);
    }
    let mut plan: Vec<FieldPlan> = Vec::new();
    let mut i: usize = 0;
    while i < fields.len()
        invariant
            i <= fields@.len(),
            plan@.len() == i,
            forall|j: int| 0 <= j < i ==> {
                &&& (#[trigger] plan@[j]).index == j
                &&& cfg_positions(paths_view(fields@[j]), plan@[j].cfg_attrs@)
            },
        decreases fields@.len() - i,
    {
        let cfg_attrs = cfg_attrs_of(&fields[i]);
        plan.push(FieldPlan { index: i, cfg_attrs });
        i = i + 1;
    }
    Ok(plan)
}

/// The fields of a tuple struct expanded by `tuple_for_each`, each marked
/// with whether its `cfg` conditions hold in the build.
pub struct TupleFields {
    present: Vec<bool>,
}

impl View for TupleFields {
    type V = Seq<bool>;

    closed spec fn view(&self) -> Seq<bool> {
        self.present@
    }
}

/// Number of `true` entries in `s`.
pub open spec fn count_present(s: Seq<bool>) -> nat
    decreases s.len(),
{
    if s.len() == 0 {
        0
    } else {
        count_present(s.drop_last()) + if s.last() {
            1nat
        } else {
            0nat
        }
    }
}

impl TupleFields {
    /// The fields of a tuple struct; `present[i]` tells whether field `i`
    /// is compiled in.
    pub fn new(present: Vec<bool>) -> (r: Self)
        ensures
            r@ == present@,
    {
        TupleFields { present }
    }

    /// Number of fields in the tuple (those compiled in).
    pub fn len(&self) -> (r: usize)
        ensures
            r == count_present(self@),
    {
        let mut l: usize = 0;
        let mut i: usize = 0;
        while i < self.present.len()
            invariant
                i <= self@.len(),
                l == count_present(self@.take(i as int)),
                l <= i,
            decreases self@.len() - i,
        {
            assert(self@.take(i + 1).drop_last() =~= self@.take(i as int));
            if self.present[i] {
                l = l + 1;
            }
            i = i + 1;
        }
        assert(self@.take(self@.len() as int) =~= self@);
        l
    }

    /// Whether the tuple has no field.
    pub fn is_empty(&self) -> (r: bool)
        ensures
            r == (count_present(self@) == 0),
    {
        self.len() == 0
    }

    /// The positions of the fields `for_each` visits, in order.
    pub fn for_each_order(&self) -> (r: Vec<usize>)
        ensures
            forall|k: int| 0 <= k < r@.len() ==> 0 <= #[trigger] r@[k] < self@.len() && self@[r@[k] as int],
            forall|j: int, k: int| 0 <= j < k < r@.len() ==> r@[j] < r@[k],
            forall|t: int| 0 <= t < self@.len() && self@[t] ==> exists|k: int| 0 <= k < r@.len() && #[trigger] r@[k] == t,
    {
        let mut r: Vec<usize> = Vec::new();
        let mut i: usize = 0;
        while i < self.present.len()
            invariant
                i <= self@.len(),
                forall|k: int| 0 <= k < r@.len() ==> 0 <= #[trigger] r@[k] < i && self@[r@[k] as int],
                forall|j: int, k: int| 0 <= j < k < r@.len() ==> r@[j] < r@[k],
                forall|t: int| 0 <= t < i && self@[t] ==> exists|k: int| 0 <= k < r@.len() && #[trigger] r@[k] == t,
            decreases self@.len() - i,
        {
            let ghost r0 = r@;
            if self.present[i] {
                r.push(i);
                assert forall|t: int| 0 <= t < i + 1 && self@[t] implies exists|k: int|
                    0 <= k < r@.len() && #[trigger] r@[k] == t by {
                    if t < i {
                        let k = choose|k: int| 0 <= k < r0.len() && #[trigger] r0[k] == t;
                        assert(r@[k] == t);
                    } else {
                        assert(r@[r@.len() - 1] == t);
                    }
                }
            }
            i = i + 1;
        }
        r
    }
}

/// `for_each` visits exactly as many fields as `len` counts.
pub proof fn law_for_each_visits_len_fields(s: Seq<bool>, order: Seq<usize>)
    requires
        forall|k: int| 0 <= k < order.len() ==> 0 <= #[trigger] order[k] < s.len() && s[order[k] as int],
        forall|j: int, k: int| 0 <= j < k < order.len() ==> order[j] < order[k],
        forall|t: int| 0 <= t < s.len() && s[t] ==> exists|k: int| 0 <= k < order.len() && #[trigger] order[k] == t,
    ensures
        order.len() == count_present(s),
    decreases s.len(),
{
    if s.len() == 0 {
        if order.len() > 0 {
            assert(0 <= order[0] < s.len());
        }
    } else {
        let n = (s.len() - 1) as int;
        let s2 = s.drop_last();
        if s.last() {
            // the last visited position is n
            let kk = choose|k: int| 0 <= k < order.len() && #[trigger] order[k] == n;
            if kk < order.len() - 1 {
                assert(order[kk] < order[order.len() - 1]);
                assert(order[order.len() - 1] < s.len());
            }
            let o2 = order.drop_last();
            assert forall|t: int| 0 <= t < s2.len() && s2[t] implies exists|k: int| 0 <= k < o2.len() && #[trigger] o2[k] == t by {
                assert(s[t]);
                let k = choose|k: int| 0 <= k < order.len() && #[trigger] order[k] == t;
                assert(k != order.len() - 1);
                assert(o2[k] == t);
            }
            assert forall|k: int| 0 <= k < o2.len() implies 0 <= #[trigger] o2[k] < s2.len() && s2[o2[k] as int] by {
                assert(order[k] < order[order.len() - 1]);
            }
            law_for_each_visits_len_fields(s2, o2);
        } else {
            assert forall|k: int| 0 <= k < order.len() implies 0 <= #[trigger] order[k] < s2.len() && s2[order[k] as int] by {
                assert(order[k] != n);
            }
            assert forall|t: int| 0 <= t < s2.len() && s2[t] implies exists|k: int| 0 <= k < order.len() && #[trigger] order[k] == t by {
                assert(s[t]);
            }
            law_for_each_visits_len_fields(s2, order);
        }
    }
}

} // verus!
