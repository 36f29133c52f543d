//! Device-tree lookups: finding nodes and properties, decoding property
//! values, and discovering the secondary CPUs.
//!
//! The tree is held as plain values: its nodes in document order, each with
//! its name and its properties in order, each property with its name and raw
//! value bytes. Values are decoded as the flattened-device-tree format lays
//! them out: cells are big-endian, strings are NUL-terminated.
use vstd::prelude::*;
use vstd::utf8::valid_utf8;
use crate::names::{
    name_compatible, bytes_compatible, name_cpus, bytes_cpus, name_address_cells,
    bytes_address_cells, name_reg, bytes_reg, name_device_type, bytes_device_type, name_cpu,
    bytes_cpu, name_enable_method, bytes_enable_method, name_psci, bytes_psci,
};

verus! {

/// A property as plain values: (name, value).
pub type PropV = (Seq<u8>, Seq<u8>);

/// A node as plain values: (name, properties).
pub type NodeV = (Seq<u8>, Seq<PropV>);

/// One property of a device-tree node.
#[derive(Clone, Debug)]
pub struct DtProp {
    pub name: Vec<u8>,
    pub value: Vec<u8>,
}

/// One node of a device tree with its properties in order.
#[derive(Clone, Debug)]
pub struct DtNode {
    pub name: Vec<u8>,
    pub props: Vec<DtProp>,
}

/// A device tree: all nodes in document order (the root first).
#[derive(Clone, Debug)]
pub struct DevTree {
    pub nodes: Vec<DtNode>,
}

impl View for DtProp {
    type V = PropV;

    open spec fn view(&self) -> PropV {
        (self.name@, self.value@)
    }
}

impl View for DtNode {
    type V = NodeV;

    open spec fn view(&self) -> NodeV {
        (self.name@, self.props@.map_values(|p: DtProp| p@))
    }
}

impl View for DevTree {
    type V = Seq<NodeV>;

    open spec fn view(&self) -> Seq<NodeV> {
        self.nodes@.map_values(|n: DtNode| n@)
    }
}

/// Why a device-tree lookup cannot complete on a tree.
#[derive(PartialEq, Eq, Structural, Clone, Copy, Debug)]
pub enum DtbError {
    /// A property the lookup needs is absent from its node.
    MissingProperty,
    /// A property value is too short for the cell read, or a string in it
    /// is not NUL-terminated or not valid UTF-8.
    BadValue,
    /// The `cpus` node's `#address-cells` is neither 1 nor 2.
    BadAddressCells,
    /// A secondary CPU's `enable-method` is not `psci`.
    BadEnableMethod,
}

/// The big-endian number held by `s[off..off + n]`.
pub open spec fn be_value(s: Seq<u8>, off: int, n: nat) -> nat
    decreases n,
{
    if n == 0 {
        0
    } else {
        be_value(s, off, (n - 1) as nat) * 256 + s[off + n - 1] as nat
    }
}

/// Cell `index` of a value read as big-endian 32-bit cells, if the value is
/// long enough.
pub open spec fn spec_u32(v: Seq<u8>, index: nat) -> Option<u32> {
    if index * 4 + 4 <= v.len() {
        Some(be_value(v, (index * 4) as int, 4) as u32)
    } else {
        None
    }
}

/// Cell `index` of a value read as big-endian 64-bit cells, if the value is
/// long enough.
pub open spec fn spec_u64(v: Seq<u8>, index: nat) -> Option<u64> {
    if index * 8 + 8 <= v.len() {
        Some(be_value(v, (index * 8) as int, 8) as u64)
    } else {
        None
    }
}

proof fn lemma_be_value_bound(s: Seq<u8>, off: int, n: nat)
    ensures
        be_value(s, off, n) < vstd::arithmetic::power2::pow2(8 * n),
    decreases n,
{
    vstd::arithmetic::power2::lemma2_to64();
    if n > 0 {
        let m = (n - 1) as nat;
        lemma_be_value_bound(s, off, m);
        let p = vstd::arithmetic::power2::pow2(8 * m);
        vstd::arithmetic::power2::lemma_pow2_adds(8 * m, 8);
        assert(8 * n == 8 * m + 8);
        let b = be_value(s, off, m);
        assert(b * 256 + 255 < p * 256) by (nonlinear_arith)
            requires
                b < p,
        ;
        assert(be_value(s, off, n) == b * 256 + s[off + n - 1] as nat);
    }
}

/// Reads the `n`-byte big-endian number at `value[off..off + n]`.
fn read_be(value: &[u8], off: usize, n: usize) -> (r: u64)
    requires
        n <= 8,
        off + n <= value@.len(),
    ensures
        r == be_value(value@, off as int, n as nat),
{
    let mut acc: u64 = 0;
    let mut k: usize = 0;
    while k < n
        invariant
            k <= n <= 8,
            off + n <= value.len(),
            acc == be_value(value@, off as int, k as nat),
        decreases n - k,
    {
        proof {
            lemma_be_value_bound(value@, off as int, k as nat);
            vstd::arithmetic::power2::lemma_pow2_pos(8 * (k as nat));
            if k < 7 {
                vstd::arithmetic::power2::lemma_pow2_strictly_increases(8 * (k as nat), 56);
            }
            vstd::arithmetic::power2::lemma2_to64();
            vstd::arithmetic::power2::lemma2_to64_rest();
        }
        acc = acc * 256 + value[off + k] as u64;
        k = k + 1;
    }
    acc
}

/// Reads cell `index` of `value` as a big-endian `u32` (`None` when the
/// value is too short).
pub fn read_u32(value: &[u8], index: usize) -> (r: Option<u32>)
    requires
        index * 4 + 4 <= usize::MAX,
    ensures
        r == spec_u32(value@, index as nat),
{
    let off = index * 4;
    if off + 4 > value.len() {
        return None;
    }
    let v = read_be(value, off, 4);
    proof {
        lemma_be_value_bound(value@, off as int, 4);
        vstd::arithmetic::power2::lemma2_to64();
    }
    Some(v as u32)
}

/// Reads cell `index` of `value` as a big-endian `u64` (`None` when the
/// value is too short).
pub fn read_u64(value: &[u8], index: usize) -> (r: Option<u64>)
    requires
        index * 8 + 8 <= usize::MAX,
    ensures
        r == spec_u64(value@, index as nat),
{
    let off = index * 8;
    if off + 8 > value.len() {
        return None;
    }
    let v = read_be(value, off, 8);
    Some(v)
}

/// The first element of `s` that satisfies `p`.
pub open spec fn first_match<T>(s: Seq<T>, p: spec_fn(T) -> bool) -> Option<T>
    decreases s.len(),
{
    if s.len() == 0 {
        None
    } else {
        match first_match(s.drop_last(), p) {
            Some(x) => Some(x),
            None => if p(s.last()) {
                Some(s.last())
            } else {
                None
            },
        }
    }
}

/// Scanning one more element: the first match of a longer prefix.
proof fn lemma_first_match_step<T>(s: Seq<T>, p: spec_fn(T) -> bool, i: int)
    requires
        0 <= i < s.len(),
    ensures
        first_match(s.take(i + 1), p) == (match first_match(s.take(i), p) {
            Some(x) => Some(x),
            None => if p(s[i]) {
                Some(s[i])
            } else {
                None
            },
        }),
{
    assert(s.take(i + 1).drop_last() =~= s.take(i));
}

/// Once a prefix has a match, every longer prefix has the same first match.
proof fn lemma_first_match_extends<T>(s: Seq<T>, p: spec_fn(T) -> bool, k: int, m: int)
    requires
        0 <= k <= m <= s.len(),
        first_match(s.take(k), p) is Some,
    ensures
        first_match(s.take(m), p) == first_match(s.take(k), p),
    decreases m - k,
{
    if k < m {
        lemma_first_match_extends(s, p, k, m - 1);
        lemma_first_match_step(s, p, m - 1);
    }
}

/// Property-name test.
pub open spec fn named_prop(name: Seq<u8>) -> spec_fn(PropV) -> bool {
    |q: PropV| q.0 == name
}

/// Node-name test.
pub open spec fn named_node(name: Seq<u8>) -> spec_fn(NodeV) -> bool {
    |n: NodeV| n.0 == name
}

/// Whether two byte strings are equal.
pub fn bytes_eq(a: &[u8], b: &[u8]) -> (r: bool)
    ensures
        r == (a@ == b@),
{
    if a.len() != b.len() {
        return false;
    }
    let mut i: usize = 0;
    while i < a.len()
        invariant
            a@.len() == b@.len(),
            i <= a@.len(),
            forall|j: int| 0 <= j < i ==> a@[j] == b@[j],
        decreases a@.len() - i,
    {
        if a[i] != b[i] {
            return false;
        }
        i = i + 1;
    }
    assert(a@ =~= b@);
    true
}

/// The first property of `node` called `name`.
pub fn get_prop<'a>(node: &'a DtNode, name: &[u8]) -> (r: Option<&'a DtProp>)
    ensures
        r is None <==> first_match(node@.1, named_prop(name@)) is None,
        r is Some ==> first_match(node@.1, named_prop(name@)) == Some(r.unwrap()@),
{
    let ghost props = node@.1;
    let mut i: usize = 0;
    while i < node.props.len()
        invariant
            props == node@.1,
            props.len() == node.props@.len(),
            i <= props.len(),
            first_match(props.take(i as int), named_prop(name@)) is None,
        decreases props.len() - i,
    {
        proof {
            lemma_first_match_step(props, named_prop(name@), i as int);
        }
        if bytes_eq(node.props[i].name.as_slice(), name) {
            proof {
                lemma_first_match_extends(props, named_prop(name@), i + 1, props.len() as int);
                assert(props.take(props.len() as int) =~= props);
            }
            return Some(&node.props[i]);
        }
        i = i + 1;
    }
    assert(props.take(props.len() as int) =~= props);
    None
}

/// The first node of `tree` called `name`.
pub fn get_node<'a>(tree: &'a DevTree, name: &[u8]) -> (r: Option<&'a DtNode>)
    ensures
        r is None <==> first_match(tree@, named_node(name@)) is None,
        r is Some ==> first_match(tree@, named_node(name@)) == Some(r.unwrap()@),
{
    let ghost nodes = tree@;
    let mut i: usize = 0;
    while i < tree.nodes.len()
        invariant
            nodes == tree@,
            nodes.len() == tree.nodes@.len(),
            i <= nodes.len(),
            first_match(nodes.take(i as int), named_node(name@)) is None,
        decreases nodes.len() - i,
    {
        proof {
            lemma_first_match_step(nodes, named_node(name@), i as int);
        }
        if bytes_eq(tree.nodes[i].name.as_slice(), name) {
            proof {
                lemma_first_match_extends(nodes, named_node(name@), i + 1, nodes.len() as int);
                assert(nodes.take(nodes.len() as int) =~= nodes);
            }
            return Some(&tree.nodes[i]);
        }
        i = i + 1;
    }
    assert(nodes.take(nodes.len() as int) =~= nodes);
    None
}

/// Position of the first NUL byte of `v` at or after `i` (`v.len()` when
/// there is none).
pub open spec fn nul_from(v: Seq<u8>, i: int) -> int
    decreases v.len() - i,
{
    if i >= v.len() || i < 0 {
        v.len() as int
    } else if v[i] == 0 {
        i
    } else {
        nul_from(v, i + 1)
    }
}

/// The first NUL-terminated string of a value, without its terminator;
/// `None` when the value holds no NUL byte.
pub open spec fn first_str(v: Seq<u8>) -> Option<Seq<u8>> {
    let z = nul_from(v, 0);
    if z < v.len() {
        Some(v.subrange(0, z))
    } else {
        None
    }
}

/// Whether `bytes` is valid UTF-8, as `core::str::from_utf8` decides.
#[verifier::external_body]
fn utf8_valid(bytes: &[u8]) -> (r: bool)
    ensures
        r == valid_utf8(bytes@),
{
    core::str::from_utf8(bytes).is_ok()
}

/// The string value of a property: its first NUL-terminated entry, which
/// must be valid UTF-8; `None` when there is no such entry.
pub open spec fn spec_str(v: Seq<u8>) -> Option<Seq<u8>> {
    match first_str(v) {
        Some(s) => if valid_utf8(s) {
            Some(s)
        } else {
            None
        },
        None => None,
    }
}

/// The string value of a property (its bytes up to the first NUL, which
/// must be valid UTF-8); `None` when the value holds no such string.
pub fn read_str(value: &[u8]) -> (r: Option<Vec<u8>>)
    ensures
        r is None <==> spec_str(value@) is None,
        r is Some ==> spec_str(value@) == Some(r.unwrap()@),
{
    let mut out: Vec<u8> = Vec::new();
    let mut i: usize = 0;
    while i < value.len()
        invariant
            i <= value@.len(),
            nul_from(value@, 0) == nul_from(value@, i as int),
            out@ == value@.subrange(0, i as int),
        decreases value@.len() - i,
    {
        if value[i] == 0 {
            if utf8_valid(out.as_slice()) {
                return Some(out);
            } else {
                return None;
            }
        }
        out.push(value[i]);
        assert(out@ =~= value@.subrange(0, i + 1));
        i = i + 1;
    }
    None
}

/// Scanning the NUL-terminated entries of a string list for `c`, from the
/// entry that starts at `start`, having read up to `i`: `Ok(true)` at the
/// first entry equal to `c`, `Ok(false)` once the list ends right after an
/// entry, and an error when an entry met before is not terminated or not
/// valid UTF-8.
pub open spec fn list_scan(list: Seq<u8>, start: int, i: int, c: Seq<u8>) -> Result<bool, DtbError>
    decreases list.len() - i,
{
    if i < 0 || start < 0 || start > i || i >= list.len() {
        if start == i {
            Ok(false)
        } else {
            Err(DtbError::BadValue)
        }
    } else if list[i] == 0 {
        let e = list.subrange(start, i);
        if !valid_utf8(e) {
            Err(DtbError::BadValue)
        } else if e == c {
            Ok(true)
        } else {
            list_scan(list, i + 1, i + 1, c)
        }
    } else {
        list_scan(list, start, i + 1, c)
    }
}

/// Whether `c` is an entry of the string list `list`, reading the entries in
/// order; an error when an entry read before a match is malformed.
pub fn str_list_contains(list: &[u8], c: &[u8]) -> (r: Result<bool, DtbError>)
    ensures
        r == list_scan(list@, 0, 0, c@),
{
    let mut entry: Vec<u8> = Vec::new();
    let mut start: usize = 0;
    let mut i: usize = 0;
    while i < list.len()
        invariant
            start <= i <= list@.len(),
            entry@ == list@.subrange(start as int, i as int),
            list_scan(list@, 0, 0, c@) == list_scan(list@, start as int, i as int, c@),
        decreases list@.len() - i,
    {
        if list[i] == 0 {
            if !utf8_valid(entry.as_slice()) {
                return Err(DtbError::BadValue);
            }
            if bytes_eq(entry.as_slice(), c) {
                return Ok(true);
            }
            entry = Vec::new();
            start = i + 1;
            assert(entry@ =~= list@.subrange(start as int, start as int));
        } else {
            entry.push(list[i]);
            assert(entry@ =~= list@.subrange(start as int, i + 1));
        }
        i = i + 1;
    }
    if start == i {
        Ok(false)
    } else {
        Err(DtbError::BadValue)
    }
}

/// What the `compatible` properties of a node say about `c`, read in order:
/// `Ok(true)` as soon as one lists `c`.
pub open spec fn props_compatible(props: Seq<PropV>, c: Seq<u8>) -> Result<bool, DtbError>
    decreases props.len(),
{
    if props.len() == 0 {
        Ok(false)
    } else {
        match props_compatible(props.drop_last(), c) {
            Err(e) => Err(e),
            Ok(true) => Ok(true),
            Ok(false) => if props.last().0 == name_compatible() {
                list_scan(props.last().1, 0, 0, c)
            } else {
                Ok(false)
            },
        }
    }
}

/// The first node, in document order, whose `compatible` properties list
/// `c`; an error when a `compatible` list read before it is malformed.
pub open spec fn compatible_search(nodes: Seq<NodeV>, c: Seq<u8>) -> Result<Option<NodeV>, DtbError>
    decreases nodes.len(),
{
    if nodes.len() == 0 {
        Ok(None)
    } else {
        match compatible_search(nodes.drop_last(), c) {
            Err(e) => Err(e),
            Ok(Some(n)) => Ok(Some(n)),
            Ok(None) => match props_compatible(nodes.last().1, c) {
                Err(e) => Err(e),
                Ok(true) => Ok(Some(nodes.last())),
                Ok(false) => Ok(None),
            },
        }
    }
}

fn node_compatible(node: &DtNode, c: &[u8]) -> (r: Result<bool, DtbError>)
    ensures
        r == props_compatible(node@.1, c@),
{
    let cname = bytes_compatible();
    let ghost props = node@.1;
    let mut state: Result<bool, DtbError> = Ok(false);
    let mut i: usize = 0;
    while i < node.props.len()
        invariant
            cname@ == name_compatible(),
            props == node@.1,
            props.len() == node.props@.len(),
            i <= props.len(),
            state == props_compatible(props.take(i as int), c@),
        decreases props.len() - i,
    {
        assert(props.take(i + 1).drop_last() =~= props.take(i as int));
        assert(props.take(i + 1).last() == node.props@[i as int]@);
        if let Ok(false) = state {
            if bytes_eq(node.props[i].name.as_slice(), cname.as_slice()) {
                state = str_list_contains(node.props[i].value.as_slice(), c);
            }
        }
        i = i + 1;
    }
    assert(props.take(props.len() as int) =~= props);
    state
}

fn try_compatible_node<'a>(tree: &'a DevTree, c: &[u8]) -> (r: Result<Option<&'a DtNode>, DtbError>)
    ensures
        match r {
            Ok(Some(n)) => compatible_search(tree@, c@) == Ok::<Option<NodeV>, DtbError>(Some(n@)),
            Ok(None) => compatible_search(tree@, c@) == Ok::<Option<NodeV>, DtbError>(None),
            Err(e) => compatible_search(tree@, c@) == Err::<Option<NodeV>, DtbError>(e),
        },
{
    let ghost nodes = tree@;
    let mut state: Result<Option<usize>, DtbError> = Ok(None);
    let mut i: usize = 0;
    while i < tree.nodes.len()
        invariant
            nodes == tree@,
            nodes.len() == tree.nodes@.len(),
            i <= nodes.len(),
            match state {
                Ok(Some(k)) => k < i && compatible_search(nodes.take(i as int), c@) == Ok::<Option<NodeV>, DtbError>(Some(nodes[k as int])),
                Ok(None) => compatible_search(nodes.take(i as int), c@) == Ok::<Option<NodeV>, DtbError>(None),
                Err(e) => compatible_search(nodes.take(i as int), c@) == Err::<Option<NodeV>, DtbError>(e),
            },
        decreases nodes.len() - i,
    {
        assert(nodes.take(i + 1).drop_last() =~= nodes.take(i as int));
        assert(nodes.take(i + 1).last() == nodes[i as int]);
        assert(nodes[i as int] == tree.nodes@[i as int]@);
        match state {
            Ok(None) => {
                match node_compatible(&tree.nodes[i], c) {
                    Err(e) => {
                        state = Err(e);
                    },
                    Ok(true) => {
                        state = Ok(Some(i));
                    },
                    Ok(false) => {},
                }
            },
            _ => {},
        }
        i = i + 1;
    }
    assert(nodes.take(nodes.len() as int) =~= nodes);
    match state {
        Ok(Some(k)) => Ok(Some(&tree.nodes[k])),
        Ok(None) => Ok(None),
        Err(e) => Err(e),
    }
}

/// The first node of `tree` compatible with `compatible`. Every
/// `compatible` list read on the way must be well formed.
pub fn compatible_node<'a>(tree: &'a DevTree, compatible: &[u8]) -> (r: Option<&'a DtNode>)
    requires
        compatible_search(tree@, compatible@) is Ok,
    ensures
        r is None ==> compatible_search(tree@, compatible@) == Ok::<Option<NodeV>, DtbError>(None),
        r is Some ==> compatible_search(tree@, compatible@) == Ok::<Option<NodeV>, DtbError>(Some(r.unwrap()@)),
{
    match try_compatible_node(tree, compatible) {
        Ok(n) => n,
        Err(_) => None,
    }
}

/// What the `u64` lookup of `prop_u64` finds: nothing when no node is
/// compatible with `compatible`, otherwise the first 64-bit cell of that
/// node's property `name`. An error marks the trees on which the lookup
/// cannot complete: a malformed `compatible` list on the way, or a property
/// that is absent or shorter than eight bytes.
pub open spec fn spec_prop_u64(tree: Seq<NodeV>, compatible: Seq<u8>, name: Seq<u8>) -> Result<Option<u64>, DtbError> {
    match compatible_search(tree, compatible) {
        Err(e) => Err(e),
        Ok(None) => Ok(None),
        Ok(Some(n)) => match first_match(n.1, named_prop(name)) {
            None => Err(DtbError::MissingProperty),
            Some(p) => match spec_u64(p.1, 0) {
                None => Err(DtbError::BadValue),
                Some(v) => Ok(Some(v)),
            },
        },
    }
}

/// What the string lookup of `prop_str` finds: nothing when no node is
/// compatible with `compatible`, otherwise the string value of that node's
/// property `name`. An error marks the trees on which the lookup cannot
/// complete: a malformed `compatible` list on the way, or a property that
/// is absent or holds no terminated UTF-8 string.
pub open spec fn spec_prop_str(tree: Seq<NodeV>, compatible: Seq<u8>, name: Seq<u8>) -> Result<Option<Seq<u8>>, DtbError> {
    match compatible_search(tree, compatible) {
        Err(e) => Err(e),
        Ok(None) => Ok(None),
        Ok(Some(n)) => match first_match(n.1, named_prop(name)) {
            None => Err(DtbError::MissingProperty),
            Some(p) => match spec_str(p.1) {
                None => Err(DtbError::BadValue),
                Some(v) => Ok(Some(v)),
            },
        },
    }
}

pub(crate) fn try_prop_u64(tree: &DevTree, compatible: &[u8], name: &[u8]) -> (r: Result<Option<u64>, DtbError>)
    ensures
        r == spec_prop_u64(tree@, compatible@, name@),
{
    match try_compatible_node(tree, compatible) {
        Err(e) => Err(e),
        Ok(None) => Ok(None),
        Ok(Some(n)) => match get_prop(n, name) {
            None => Err(DtbError::MissingProperty),
            Some(p) => match read_u64(p.value.as_slice(), 0) {
                None => Err(DtbError::BadValue),
                Some(v) => Ok(Some(v)),
            },
        },
    }
}

pub(crate) fn try_prop_str(tree: &DevTree, compatible: &[u8], name: &[u8]) -> (r: Result<Option<Vec<u8>>, DtbError>)
    ensures
        match r {
            Ok(Some(v)) => spec_prop_str(tree@, compatible@, name@) == Ok::<Option<Seq<u8>>, DtbError>(Some(v@)),
            Ok(None) => spec_prop_str(tree@, compatible@, name@) == Ok::<Option<Seq<u8>>, DtbError>(None),
            Err(e) => spec_prop_str(tree@, compatible@, name@) == Err::<Option<Seq<u8>>, DtbError>(e),
        },
{
    match try_compatible_node(tree, compatible) {
        Err(e) => Err(e),
        Ok(None) => Ok(None),
        Ok(Some(n)) => match get_prop(n, name) {
            None => Err(DtbError::MissingProperty),
            Some(p) => match read_str(p.value.as_slice()) {
                None => Err(DtbError::BadValue),
                Some(v) => Ok(Some(v)),
            },
        },
    }
}

/// Whether `prop_u64(tree, compatible, name)` can be answered: the
/// compatible search succeeds, and a compatible node holds property `name`
/// with at least eight bytes.
pub fn prop_u64_defined(tree: &DevTree, compatible: &[u8], name: &[u8]) -> (r: bool)
    ensures
        r == spec_prop_u64(tree@, compatible@, name@) is Ok,
{
    try_prop_u64(tree, compatible, name).is_ok()
}

/// Whether `prop_str(tree, compatible, name)` can be answered: the
/// compatible search succeeds, and a compatible node holds property `name`
/// with a terminated UTF-8 string.
pub fn prop_str_defined(tree: &DevTree, compatible: &[u8], name: &[u8]) -> (r: bool)
    ensures
        r == spec_prop_str(tree@, compatible@, name@) is Ok,
{
    try_prop_str(tree, compatible, name).is_ok()
}

/// The first 64-bit cell of property `name` of the first node compatible
/// with `compatible`; `None` when no node is compatible.
pub fn prop_u64(tree: &DevTree, compatible: &[u8], name: &[u8]) -> (r: Option<u64>)
    requires
        spec_prop_u64(tree@, compatible@, name@) is Ok,
    ensures
        spec_prop_u64(tree@, compatible@, name@) == Ok::<Option<u64>, DtbError>(r),
{
    match try_prop_u64(tree, compatible, name) {
        Ok(v) => v,
        Err(_) => None,
    }
}

/// The string value of property `name` of the first node compatible with
/// `compatible`; `None` when no node is compatible.
pub fn prop_str(tree: &DevTree, compatible: &[u8], name: &[u8]) -> (r: Option<Vec<u8>>)
    requires
        spec_prop_str(tree@, compatible@, name@) is Ok,
    ensures
        r is None ==> spec_prop_str(tree@, compatible@, name@) == Ok::<Option<Seq<u8>>, DtbError>(None),
        r is Some ==> spec_prop_str(tree@, compatible@, name@) == Ok::<Option<Seq<u8>>, DtbError>(Some(r.unwrap()@)),
{
    match try_prop_str(tree, compatible, name) {
        Ok(v) => v,
        Err(_) => None,
    }
}

/// Whether a node is a device of type `cpu`: its first `device_type`
/// property's string value is `cpu`. A `device_type` without a string
/// value is an error.
pub open spec fn spec_is_cpu(n: NodeV) -> Result<bool, DtbError> {
    match first_match(n.1, named_prop(name_device_type())) {
        None => Ok(false),
        Some(p) => match spec_str(p.1) {
            None => Err(DtbError::BadValue),
            Some(t) => Ok(t == name_cpu()),
        },
    }
}

fn is_cpu(node: &DtNode) -> (r: Result<bool, DtbError>)
    ensures
        r == spec_is_cpu(node@),
{
    let dt = bytes_device_type();
    match get_prop(node, dt.as_slice()) {
        None => Ok(false),
        Some(p) => match read_str(p.value.as_slice()) {
            None => Err(DtbError::BadValue),
            Some(t) => {
                let cpu = bytes_cpu();
                Ok(bytes_eq(t.as_slice(), cpu.as_slice()))
            },
        },
    }
}

/// The number of address cells CPU ids use: the first cell of the `cpus`
/// node's `#address-cells`, or 2 when there is no `cpus` node.
pub open spec fn spec_address_cells(tree: Seq<NodeV>) -> Result<u32, DtbError> {
    match first_match(tree, named_node(name_cpus())) {
        None => Ok(2),
        Some(n) => match first_match(n.1, named_prop(name_address_cells())) {
            None => Err(DtbError::MissingProperty),
            Some(p) => match spec_u32(p.1, 0) {
                None => Err(DtbError::BadValue),
                Some(a) => Ok(a),
            },
        },
    }
}

fn address_cells(tree: &DevTree) -> (r: Result<u32, DtbError>)
    ensures
        r == spec_address_cells(tree@),
{
    let cpus = bytes_cpus();
    match get_node(tree, cpus.as_slice()) {
        None => Ok(2),
        Some(n) => {
            let ac = bytes_address_cells();
            match get_prop(n, ac.as_slice()) {
                None => Err(DtbError::MissingProperty),
                Some(p) => match read_u32(p.value.as_slice(), 0) {
                    None => Err(DtbError::BadValue),
                    Some(a) => Ok(a),
                },
            }
        },
    }
}

/// The hardware id in a CPU node's `reg` value: one 32-bit cell when
/// `cells` is 1, one 64-bit cell otherwise.
pub open spec fn spec_reg_id(reg: Seq<u8>, cells: u32) -> Option<usize> {
    if cells == 1 {
        match spec_u32(reg, 0) {
            None => None,
            Some(v) => Some(v as usize),
        }
    } else {
        match spec_u64(reg, 0) {
            None => None,
            Some(v) => Some(v as usize),
        }
    }
}

/// What discovering one node contributes: nothing for a node that is not a
/// CPU or is the boot CPU; the id of any other CPU, which must be started
/// through PSCI. An error marks a node the discovery cannot get past.
pub open spec fn spec_cpu_step(n: NodeV, cells: u32, bsp_id: usize) -> Result<Option<usize>, DtbError> {
    match spec_is_cpu(n) {
        Err(e) => Err(e),
        Ok(false) => Ok(None),
        Ok(true) => match first_match(n.1, named_prop(name_reg())) {
            None => Err(DtbError::MissingProperty),
            Some(reg) => match spec_reg_id(reg.1, cells) {
                None => Err(DtbError::BadValue),
                Some(id) => if id == bsp_id {
                    Ok(None)
                } else {
                    match first_match(n.1, named_prop(name_enable_method())) {
                        None => Err(DtbError::MissingProperty),
                        Some(em) => if spec_str(em.1) == Some(name_psci()) {
                            Ok(Some(id))
                        } else {
                            Err(DtbError::BadEnableMethod)
                        },
                    }
                },
            },
        },
    }
}

/// The secondary CPU ids found in `nodes`, in document order, or the first
/// node the discovery cannot get past.
pub open spec fn spec_cpu_scan(nodes: Seq<NodeV>, cells: u32, bsp_id: usize) -> Result<Seq<usize>, DtbError>
    decreases nodes.len(),
{
    if nodes.len() == 0 {
        Ok(Seq::empty())
    } else {
        match spec_cpu_scan(nodes.drop_last(), cells, bsp_id) {
            Err(e) => Err(e),
            Ok(ids) => match spec_cpu_step(nodes.last(), cells, bsp_id) {
                Err(e) => Err(e),
                Ok(None) => Ok(ids),
                Ok(Some(id)) => Ok(ids.push(id)),
            },
        }
    }
}

/// The CPU discovery: the address-cell count must be 1 or 2; then the ids
/// of all secondary CPUs in document order. An error marks a description
/// the discovery cannot complete on.
pub open spec fn spec_smp_init(tree: Seq<NodeV>, bsp_id: usize) -> Result<Seq<usize>, DtbError> {
    match spec_address_cells(tree) {
        Err(e) => Err(e),
        Ok(a) => if a != 1 && a != 2 {
            Err(DtbError::BadAddressCells)
        } else {
            spec_cpu_scan(tree, a, bsp_id)
        },
    }
}

fn cpu_step(node: &DtNode, cells: u32, bsp_id: usize) -> (r: Result<Option<usize>, DtbError>)
    ensures
        r == spec_cpu_step(node@, cells, bsp_id),
{
    match is_cpu(node) {
        Err(e) => Err(e),
        Ok(false) => Ok(None),
        Ok(true) => {
            let reg_name = bytes_reg();
            match get_prop(node, reg_name.as_slice()) {
                None => Err(DtbError::MissingProperty),
                Some(reg) => {
                    let id_opt: Option<usize> = if cells == 1 {
                        match read_u32(reg.value.as_slice(), 0) {
                            None => None,
                            Some(v) => Some(v as usize),
                        }
                    } else {
                        match read_u64(reg.value.as_slice(), 0) {
                            None => None,
                            Some(v) => Some(v as usize),
                        }
                    };
                    match id_opt {
                        None => Err(DtbError::BadValue),
                        Some(id) => if id == bsp_id {
                            Ok(None)
                        } else {
                            let em_name = bytes_enable_method();
                            match get_prop(node, em_name.as_slice()) {
                                None => Err(DtbError::MissingProperty),
                                Some(em) => {
                                    let psci = bytes_psci();
                                    match read_str(em.value.as_slice()) {
                                        Some(m) => if bytes_eq(m.as_slice(), psci.as_slice()) {
                                            Ok(Some(id))
                                        } else {
                                            Err(DtbError::BadEnableMethod)
                                        },
                                        None => Err(DtbError::BadEnableMethod),
                                    }
                                },
                            }
                        },
                    }
                },
            }
        },
    }
}

fn try_smp_init(tree: &DevTree, bsp_id: usize) -> (r: Result<Vec<usize>, DtbError>)
    ensures
        match r {
            Ok(ids) => spec_smp_init(tree@, bsp_id) == Ok::<Seq<usize>, DtbError>(ids@),
            Err(e) => spec_smp_init(tree@, bsp_id) == Err::<Seq<usize>, DtbError>(e),
        },
{
    let a = match address_cells(tree) {
        Err(e) => return Err(e),
        Ok(a) => a,
    };
    if a != 1 && a != 2 {
        return Err(DtbError::BadAddressCells);
    }
    let ghost nodes = tree@;
    let mut state: Result<Vec<usize>, DtbError> = Ok(Vec::new());
    let mut i: usize = 0;
    while i < tree.nodes.len()
        invariant
            nodes == tree@,
            nodes.len() == tree.nodes@.len(),
            i <= nodes.len(),
            match state {
                Ok(ids) => spec_cpu_scan(nodes.take(i as int), a, bsp_id) == Ok::<Seq<usize>, DtbError>(ids@),
                Err(e) => spec_cpu_scan(nodes.take(i as int), a, bsp_id) == Err::<Seq<usize>, DtbError>(e),
            },
            spec_address_cells(tree@) == Ok::<u32, DtbError>(a),
            a == 1 || a == 2,
        decreases nodes.len() - i,
    {
        assert(nodes.take(i + 1).drop_last() =~= nodes.take(i as int));
        assert(nodes.take(i + 1).last() == nodes[i as int]);
        assert(nodes[i as int] == tree.nodes@[i as int]@);
        state = match state {
            Err(e) => Err(e),
            Ok(mut ids) => match cpu_step(&tree.nodes[i], a, bsp_id) {
                Err(e) => Err(e),
                Ok(None) => Ok(ids),
                Ok(Some(id)) => {
                    ids.push(id);
                    Ok(ids)
                },
            },
        };
        i = i + 1;
    }
    assert(nodes.take(nodes.len() as int) =~= nodes);
    state
}

/// Whether the CPU description of `tree` is complete for boot CPU `bsp_id`:
/// `#address-cells` (if there is a `cpus` node) is 1 or 2, every CPU node
/// has a readable `device_type` and `reg`, and every CPU but the boot CPU
/// is started through PSCI.
pub fn smp_description_ok(tree: &DevTree, bsp_id: usize) -> (r: bool)
    ensures
        r == spec_smp_init(tree@, bsp_id) is Ok,
{
    try_smp_init(tree, bsp_id).is_ok()
}

/// Discovers the secondary CPUs: reads the `cpus` node's `#address-cells`
/// (2 when there is no such node), then, for every node of device type
/// `cpu` in document order, its hardware id from the first cell of `reg`.
/// The ids of all CPUs other than the boot CPU `bsp_id` are returned in
/// order, to be registered as logical CPUs. The CPU description must be
/// complete (see `smp_description_ok`).
pub fn smp_init(tree: &DevTree, bsp_id: usize) -> (r: Vec<usize>)
    requires
        spec_smp_init(tree@, bsp_id) is Ok,
    ensures
        spec_smp_init(tree@, bsp_id) == Ok::<Seq<usize>, DtbError>(r@),
{
    match try_smp_init(tree, bsp_id) {
        Ok(ids) => ids,
        Err(_) => Vec::new(),
    }
}

proof fn lemma_cpu_scan_skips_boot_cpu(nodes: Seq<NodeV>, cells: u32, bsp_id: usize)
    ensures
        spec_cpu_scan(nodes, cells, bsp_id) is Ok ==> !spec_cpu_scan(nodes, cells, bsp_id)->Ok_0.contains(bsp_id),
    decreases nodes.len(),
{
    if nodes.len() > 0 {
        lemma_cpu_scan_skips_boot_cpu(nodes.drop_last(), cells, bsp_id);
        match spec_cpu_scan(nodes.drop_last(), cells, bsp_id) {
            Ok(ids) => match spec_cpu_step(nodes.last(), cells, bsp_id) {
                Ok(Some(id)) => {
                    assert(id != bsp_id);
                    assert forall|k: int| 0 <= k < ids.push(id).len() implies ids.push(id)[k] != bsp_id by {
                        if k < ids.len() {
                            assert(ids.push(id)[k] == ids[k]);
                        }
                    }
                },
                _ => {},
            },
            _ => {},
        }
    }
}

/// The boot CPU is never among the CPUs to start.
pub proof fn law_smp_init_skips_boot_cpu(tree: Seq<NodeV>, bsp_id: usize)
    ensures
        spec_smp_init(tree, bsp_id) is Ok ==> !spec_smp_init(tree, bsp_id)->Ok_0.contains(bsp_id),
{
    match spec_address_cells(tree) {
        Ok(a) => lemma_cpu_scan_skips_boot_cpu(tree, a, bsp_id),
        _ => {},
    }
}

/// `256` to the power `k`.
pub open spec fn pow256(k: nat) -> nat
    decreases k,
{
    if k == 0 {
        1
    } else {
        256 * pow256((k - 1) as nat)
    }
}

proof fn lemma_pow256_pos(k: nat)
    ensures
        pow256(k) > 0,
    decreases k,
{
    if k > 0 {
        lemma_pow256_pos((k - 1) as nat);
    }
}

/// Byte `j` (from the most significant) of an `n`-byte big-endian number
/// is `s[off + j]`.
proof fn lemma_be_value_bytes(s: Seq<u8>, off: int, n: nat, j: nat)
    requires
        j < n,
    ensures
        (be_value(s, off, n) / pow256((n - 1 - j) as nat)) % 256 == s[off + j] as nat,
    decreases n,
{
    let a = be_value(s, off, (n - 1) as nat);
    let d = s[off + n - 1] as nat;
    assert(be_value(s, off, n) == a * 256 + d);
    vstd::arithmetic::div_mod::lemma_fundamental_div_mod_converse_div((a * 256 + d) as int, 256, a as int, d as int);
    vstd::arithmetic::div_mod::lemma_fundamental_div_mod_converse_mod((a * 256 + d) as int, 256, a as int, d as int);
    if j == n - 1 {
        assert(pow256(0) == 1);
        assert((a * 256 + d) / 1 == a * 256 + d);
    } else {
        let k = (n - 1 - j) as nat;
        lemma_pow256_pos((k - 1) as nat);
        assert(pow256(k) == 256 * pow256((k - 1) as nat));
        vstd::arithmetic::div_mod::lemma_div_denominator((a * 256 + d) as int, 256, pow256((k - 1) as nat) as int);
        assert((a * 256 + d) / pow256(k) == ((a * 256 + d) / 256) / pow256((k - 1) as nat));
        lemma_be_value_bytes(s, off, (n - 1) as nat, j);
        assert((n - 1 - 1 - j) as nat == (k - 1) as nat);
    }
}

/// A 64-bit cell is read from all eight of its bytes, most significant
/// first: when the value holds cell `index`, byte `j` of the number read is
/// `v[8 * index + j]`.
pub proof fn law_u64_cell_bytes(v: Seq<u8>, index: nat, j: nat)
    requires
        index * 8 + 8 <= v.len(),
        j < 8,
    ensures
        spec_u64(v, index) is Some,
        (spec_u64(v, index)->0 as nat / pow256((7 - j) as nat)) % 256 == v[(index * 8 + j) as int] as nat,
{
    lemma_be_value_bound(v, (index * 8) as int, 8);
    vstd::arithmetic::power2::lemma2_to64();
    vstd::arithmetic::power2::lemma2_to64_rest();
    lemma_be_value_bytes(v, (index * 8) as int, 8, j);
}

/// A 32-bit cell is read from all four of its bytes, most significant
/// first: when the value holds cell `index`, byte `j` of the number read is
/// `v[4 * index + j]`.
pub proof fn law_u32_cell_bytes(v: Seq<u8>, index: nat, j: nat)
    requires
        index * 4 + 4 <= v.len(),
        j < 4,
    ensures
        spec_u32(v, index) is Some,
        (spec_u32(v, index)->0 as nat / pow256((3 - j) as nat)) % 256 == v[(index * 4 + j) as int] as nat,
{
    lemma_be_value_bound(v, (index * 4) as int, 4);
    vstd::arithmetic::power2::lemma2_to64();
    lemma_be_value_bytes(v, (index * 4) as int, 4, j);
}

/// A cell that does not fit in the value is not read.
pub proof fn law_short_value_has_no_cell(v: Seq<u8>, index: nat)
    ensures
        index * 8 + 8 > v.len() ==> spec_u64(v, index) is None,
        index * 4 + 4 > v.len() ==> spec_u32(v, index) is None,
{
}

proof fn lemma_search_none_when_none_compatible(nodes: Seq<NodeV>, c: Seq<u8>)
    requires
        forall|j: int| 0 <= j < nodes.len() ==> props_compatible(#[trigger] nodes[j].1, c) == Ok::<bool, DtbError>(false),
    ensures
        compatible_search(nodes, c) == Ok::<Option<NodeV>, DtbError>(None),
    decreases nodes.len(),
{
    if nodes.len() > 0 {
        let prev = nodes.drop_last();
        assert forall|j: int| 0 <= j < prev.len() implies props_compatible(#[trigger] prev[j].1, c) == Ok::<bool, DtbError>(false) by {
            assert(prev[j] == nodes[j]);
        }
        lemma_search_none_when_none_compatible(prev, c);
        assert(props_compatible(nodes[nodes.len() - 1].1, c) == Ok::<bool, DtbError>(false));
    }
}

/// The search returns the first compatible node in document order: when
/// node `k` lists `c` and every node before it reads as not compatible,
/// the result is node `k`, whatever nodes follow it.
pub proof fn law_compatible_search_takes_first(nodes: Seq<NodeV>, c: Seq<u8>, k: int)
    requires
        0 <= k < nodes.len(),
        props_compatible(nodes[k].1, c) == Ok::<bool, DtbError>(true),
        forall|j: int| 0 <= j < k ==> props_compatible(#[trigger] nodes[j].1, c) == Ok::<bool, DtbError>(false),
    ensures
        compatible_search(nodes, c) == Ok::<Option<NodeV>, DtbError>(Some(nodes[k])),
    decreases nodes.len(),
{
    let prev = nodes.drop_last();
    if k == nodes.len() - 1 {
        assert forall|j: int| 0 <= j < prev.len() implies props_compatible(#[trigger] prev[j].1, c) == Ok::<bool, DtbError>(false) by {
            assert(prev[j] == nodes[j]);
        }
        lemma_search_none_when_none_compatible(prev, c);
    } else {
        assert(prev[k] == nodes[k]);
        assert forall|j: int| 0 <= j < k implies props_compatible(#[trigger] prev[j].1, c) == Ok::<bool, DtbError>(false) by {
            assert(prev[j] == nodes[j]);
        }
        law_compatible_search_takes_first(prev, c, k);
    }
}

/// A node the search returns lists `c`, and every node before it reads as
/// not compatible.
pub proof fn law_compatible_search_result_is_first(nodes: Seq<NodeV>, c: Seq<u8>)
    requires
        compatible_search(nodes, c) is Ok,
        compatible_search(nodes, c)->Ok_0 is Some,
    ensures
        exists|k: int|
            {
                &&& 0 <= k < nodes.len()
                &&& nodes[k] == compatible_search(nodes, c)->Ok_0->0
                &&& props_compatible(nodes[k].1, c) == Ok::<bool, DtbError>(true)
                &&& forall|j: int| 0 <= j < k ==> props_compatible(#[trigger] nodes[j].1, c) == Ok::<bool, DtbError>(false)
            },
    decreases nodes.len(),
{
    let prev = nodes.drop_last();
    match compatible_search(prev, c) {
        Ok(Some(n)) => {
            law_compatible_search_result_is_first(prev, c);
            let k = choose|k: int|
                {
                    &&& 0 <= k < prev.len()
                    &&& prev[k] == compatible_search(prev, c)->Ok_0->0
                    &&& props_compatible(prev[k].1, c) == Ok::<bool, DtbError>(true)
                    &&& forall|j: int| 0 <= j < k ==> props_compatible(#[trigger] prev[j].1, c) == Ok::<bool, DtbError>(false)
                };
            assert(nodes[k] == prev[k]);
            assert forall|j: int| 0 <= j < k implies props_compatible(#[trigger] nodes[j].1, c) == Ok::<bool, DtbError>(false) by {
                assert(nodes[j] == prev[j]);
            }
        },
        Ok(None) => {
            lemma_search_none_means_none_compatible(prev, c);
            let k = nodes.len() - 1;
            assert forall|j: int| 0 <= j < k implies props_compatible(#[trigger] nodes[j].1, c) == Ok::<bool, DtbError>(false) by {
                assert(nodes[j] == prev[j]);
            }
        },
        Err(_) => {},
    }
}

proof fn lemma_search_none_means_none_compatible(nodes: Seq<NodeV>, c: Seq<u8>)
    requires
        compatible_search(nodes, c) == Ok::<Option<NodeV>, DtbError>(None),
    ensures
        forall|j: int| 0 <= j < nodes.len() ==> props_compatible(#[trigger] nodes[j].1, c) == Ok::<bool, DtbError>(false),
    decreases nodes.len(),
{
    if nodes.len() > 0 {
        let prev = nodes.drop_last();
        lemma_search_none_means_none_compatible(prev, c);
        assert forall|j: int| 0 <= j < nodes.len() implies props_compatible(#[trigger] nodes[j].1, c) == Ok::<bool, DtbError>(false) by {
            if j < prev.len() {
                assert(nodes[j] == prev[j]);
            }
        }
    }
}

/// `c` is a whole entry of the string list `list`: it starts the list or
/// follows a NUL, holds no NUL, and is followed by a NUL.
pub open spec fn is_list_entry(list: Seq<u8>, c: Seq<u8>) -> bool {
    exists|k: int|
        {
            &&& 0 <= k
            &&& k + c.len() < list.len()
            &&& (k == 0 || list[k - 1] == 0)
            &&& #[trigger] list.subrange(k, k + c.len()) == c
            &&& list[k + c.len()] == 0
            &&& forall|t: int| 0 <= t < c.len() ==> c[t] != 0
        }
}

proof fn lemma_scan_match_is_entry(list: Seq<u8>, start: int, i: int, c: Seq<u8>)
    requires
        0 <= start <= i <= list.len(),
        start == 0 || list[start - 1] == 0,
        forall|t: int| start <= t < i ==> list[t] != 0,
        list_scan(list, start, i, c) == Ok::<bool, DtbError>(true),
    ensures
        is_list_entry(list, c),
    decreases list.len() - i,
{
    if i < list.len() {
        if list[i] == 0 {
            let e = list.subrange(start, i);
            if valid_utf8(e) && e == c {
                assert(start + c.len() == i);
                assert(forall|t: int| 0 <= t < c.len() ==> c[t] == list[start + t]);
                assert(list.subrange(start, start + c.len()) == c);
            } else if valid_utf8(e) {
                lemma_scan_match_is_entry(list, i + 1, i + 1, c);
            }
        } else {
            lemma_scan_match_is_entry(list, start, i + 1, c);
        }
    }
}

/// A string list matches `c` only when `c` is one of its whole entries,
/// byte for byte: an entry that merely begins with `c` does not match.
pub proof fn law_list_match_is_whole_entry(list: Seq<u8>, c: Seq<u8>)
    requires
        list_scan(list, 0, 0, c) == Ok::<bool, DtbError>(true),
    ensures
        is_list_entry(list, c),
{
    lemma_scan_match_is_entry(list, 0, 0, c);
}

/// A node is compatible with `c` only when one of its `compatible`
/// properties holds `c` as a whole entry.
pub proof fn law_compatible_node_lists_entry(props: Seq<PropV>, c: Seq<u8>)
    requires
        props_compatible(props, c) == Ok::<bool, DtbError>(true),
    ensures
        exists|i: int| 0 <= i < props.len() && #[trigger] props[i].0 == name_compatible() && is_list_entry(props[i].1, c),
    decreases props.len(),
{
    let prev = props.drop_last();
    if props_compatible(prev, c) == Ok::<bool, DtbError>(true) {
        law_compatible_node_lists_entry(prev, c);
        let i = choose|i: int| 0 <= i < prev.len() && #[trigger] prev[i].0 == name_compatible() && is_list_entry(prev[i].1, c);
        assert(props[i] == prev[i]);
    } else {
        law_list_match_is_whole_entry(props.last().1, c);
        assert(props[props.len() - 1] == props.last());
    }
}

/// Every entry of `list` that ends before offset `k` is valid UTF-8.
pub open spec fn entries_valid_before(list: Seq<u8>, k: int) -> bool {
    forall|a: int, b: int|
        0 <= a <= b < k && (a == 0 || list[a - 1] == 0) && list[b] == 0 && (forall|t: int| a <= t < b ==> list[t] != 0)
            ==> valid_utf8(#[trigger] list.subrange(a, b))
}

proof fn lemma_scan_finds_entry(list: Seq<u8>, c: Seq<u8>, k: int, start: int, i: int)
    requires
        0 <= k,
        k + c.len() < list.len(),
        k == 0 || list[k - 1] == 0,
        list.subrange(k, k + c.len()) == c,
        list[k + c.len()] == 0,
        forall|t: int| 0 <= t < c.len() ==> c[t] != 0,
        valid_utf8(c),
        entries_valid_before(list, k),
        0 <= start <= i,
        start <= k,
        i <= k + c.len(),
        start == 0 || list[start - 1] == 0,
        forall|t: int| start <= t < i ==> list[t] != 0,
    ensures
        list_scan(list, start, i, c) == Ok::<bool, DtbError>(true),
    decreases list.len() - i,
{
    if k > 0 && start < k && i > k - 1 {
        assert(list[k - 1] != 0);
    }
    if k <= i < k + c.len() {
        assert(list[i] == list.subrange(k, k + c.len())[i - k]);
    }
    if list[i] == 0 {
        let e = list.subrange(start, i);
        if i < k {
            assert(valid_utf8(list.subrange(start, i)));
            if e != c {
                lemma_scan_finds_entry(list, c, k, i + 1, i + 1);
            }
        } else {
            assert(i == k + c.len());
            if start < k {
                assert(list[k - 1] != 0);
            }
            assert(start == k);
            assert(e == c);
        }
    } else {
        lemma_scan_finds_entry(list, c, k, start, i + 1);
    }
}

/// A string list whose entries are well formed up to a whole entry equal to
/// `c` matches `c`.
pub proof fn law_list_finds_whole_entry(list: Seq<u8>, c: Seq<u8>, k: int)
    requires
        0 <= k,
        k + c.len() < list.len(),
        k == 0 || list[k - 1] == 0,
        list.subrange(k, k + c.len()) == c,
        list[k + c.len()] == 0,
        forall|t: int| 0 <= t < c.len() ==> c[t] != 0,
        valid_utf8(c),
        entries_valid_before(list, k),
    ensures
        list_scan(list, 0, 0, c) == Ok::<bool, DtbError>(true),
{
    lemma_scan_finds_entry(list, c, k, 0, 0);
}

/// A string value read from a property is a NUL-free, valid UTF-8 prefix
/// of the value that a NUL follows; a value with such a prefix gives it.
pub proof fn law_str_value_is_terminated_prefix(v: Seq<u8>, s: Seq<u8>)
    ensures
        spec_str(v) == Some(s) <==> {
            &&& s.len() < v.len()
            &&& v.subrange(0, s.len() as int) == s
            &&& v[s.len() as int] == 0
            &&& forall|t: int| 0 <= t < s.len() ==> s[t] != 0
            &&& valid_utf8(s)
        },
{
    lemma_nul_from_first(v, 0);
    if s.len() < v.len() && v.subrange(0, s.len() as int) == s && v[s.len() as int] == 0
        && forall|t: int| 0 <= t < s.len() ==> s[t] != 0 {
        assert forall|t: int| 0 <= t < s.len() implies v[t] != 0 by {
            assert(v[t] == v.subrange(0, s.len() as int)[t]);
        }
        lemma_nul_from_is(v, 0, s.len() as int);
    }
}

proof fn lemma_nul_from_first(v: Seq<u8>, i: int)
    requires
        0 <= i <= v.len(),
    ensures
        i <= nul_from(v, i) <= v.len(),
        nul_from(v, i) < v.len() ==> v[nul_from(v, i)] == 0,
        forall|t: int| i <= t < nul_from(v, i) ==> v[t] != 0,
    decreases v.len() - i,
{
    if i < v.len() && v[i] != 0 {
        lemma_nul_from_first(v, i + 1);
    }
}

proof fn lemma_nul_from_is(v: Seq<u8>, i: int, z: int)
    requires
        0 <= i <= z < v.len(),
        v[z] == 0,
        forall|t: int| i <= t < z ==> v[t] != 0,
    ensures
        nul_from(v, i) == z,
    decreases z - i,
{
    if i < z {
        lemma_nul_from_is(v, i + 1, z);
    }
}

} // verus!
