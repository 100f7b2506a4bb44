//! Paths of the form `/cluster/<node>/vms/<n>`.

use vstd::prelude::*;
use vstd::string::*;

use crate::error::{CelError, CelResult};
use crate::mesh::membership::NodeId;
use crate::text;
use crate::text::chars_of;

verus! {

/// What is wrong with a path.
#[derive(Debug, Clone, Copy, PartialEq, Eq, Structural)]
pub enum PathFault {
    /// It does not start with `/cluster/`.
    Prefix,
    /// Nothing follows the node.
    Shape,
    /// The node is empty.
    EmptyNode,
    /// The node is not followed by `vms/`.
    Segment,
    /// There is not exactly one segment after `vms/`.
    Extra,
    /// The last segment is no 32-bit number.
    Number,
}

/// The first position of `c` in `s` from `i` on, or the length of `s`.
pub open spec fn position_of(s: Seq<char>, c: char, i: int) -> int
    decreases s.len() - i,
{
    if i >= s.len() {
        s.len() as int
    } else if s[i] == c {
        i
    } else {
        position_of(s, c, i + 1)
    }
}

/// Whether `s` holds `p` at position `i`.
pub open spec fn holds_at(s: Seq<char>, p: Seq<char>, i: int) -> bool {
    0 <= i && i + p.len() <= s.len() && s.subrange(i, i + p.len()) == p
}

/// The node and the number of a path; an empty node is accepted where
/// `allow_empty` holds.
pub open spec fn parsed_path(s: Seq<char>, allow_empty: bool) -> Result<
    (Seq<char>, u32),
    PathFault,
> {
    let a = "/cluster/"@.len() as int;
    let b = "vms/"@.len() as int;
    if !holds_at(s, "/cluster/"@, 0) {
        Err(PathFault::Prefix)
    } else {
        let i = position_of(s, '/', a);
        if i >= s.len() {
            Err(PathFault::Shape)
        } else if i == a && !allow_empty {
            Err(PathFault::EmptyNode)
        } else if !holds_at(s, "vms/"@, i + 1) {
            Err(PathFault::Segment)
        } else {
            let tail = s.skip(i + 1 + b);
            if tail.len() == 0 || position_of(s, '/', i + 1 + b) < s.len() {
                Err(PathFault::Extra)
            } else {
                match text::parsed_u32(tail) {
                    Some(n) => Ok((s.subrange(a, i), n)),
                    None => Err(PathFault::Number),
                }
            }
        }
    }
}

/// A position lies between its start and the end of the text.
pub proof fn lemma_position(s: Seq<char>, c: char, i: int)
    requires
        0 <= i <= s.len(),
    ensures
        i <= position_of(s, c, i) <= s.len(),
        position_of(s, c, i) < s.len() ==> s[position_of(s, c, i)] == c,
        forall|j: int| i <= j < position_of(s, c, i) ==> s[j] != c,
    decreases s.len() - i,
{
    if i < s.len() && s[i] != c {
        lemma_position(s, c, i + 1);
    }
}

/// Finds `c` from position `from` on.
fn find_char(s: &Vec<char>, c: char, from: usize) -> (r: usize)
    requires
        from <= s@.len(),
    ensures
        r == position_of(s@, c, from as int),
        from <= r <= s@.len(),
{
    let mut i: usize = from;
    while i < s.len() && s[i] != c
        invariant
            from <= i <= s@.len(),
            position_of(s@, c, from as int) == position_of(s@, c, i as int),
        decreases s@.len() - i,
    {
        i = i + 1;
    }
    i
}

/// Whether `s` holds `p` at position `at`.
fn holds(s: &Vec<char>, p: &str, at: usize) -> (r: bool)
    ensures
        r == holds_at(s@, p@, at as int),
{
    let q = chars_of(p);
    let n: usize = s.len();
    if at > n || q.len() > n - at {
        return false;
    }
    let mut i: usize = 0;
    while i < q.len()
        invariant
            i <= q@.len(),
            q@ == p@,
            n == s@.len(),
            at + q@.len() <= n,
            forall|j: int| 0 <= j < i ==> s@[at + j] == q@[j],
        decreases q@.len() - i,
    {
        if s[at + i] != q[i] {
            proof {
                assert(s@.subrange(at as int, at + p@.len())[i as int] == s@[at + i]);
            }
            return false;
        }
        i = i + 1;
    }
    assert(s@.subrange(at as int, at + p@.len()) =~= p@);
    true
}

/// Splits a path into its node and its number.
pub fn parse_path(path: &str, allow_empty: bool) -> (r: Result<(String, u32), PathFault>)
    ensures
        match r {
            Ok(p) => parsed_path(path@, allow_empty) == Ok::<(Seq<char>, u32), PathFault>(
                (p.0@, p.1),
            ),
            Err(f) => parsed_path(path@, allow_empty) == Err::<(Seq<char>, u32), PathFault>(f),
        },
{
    proof {
        reveal_strlit("/cluster/");
        reveal_strlit("vms/");
    }
    let s = chars_of(path);
    if !holds(&s, "/cluster/", 0) {
        return Err(PathFault::Prefix);
    }
    let i: usize = find_char(&s, '/', 9);
    if i >= s.len() {
        return Err(PathFault::Shape);
    }
    if i == 9 && !allow_empty {
        return Err(PathFault::EmptyNode);
    }
    if !holds(&s, "vms/", i + 1) {
        return Err(PathFault::Segment);
    }
    if i + 5 == s.len() || find_char(&s, '/', i + 5) < s.len() {
        return Err(PathFault::Extra);
    }
    match text::parse_u32(s.as_slice(), i + 5) {
        Some(n) => Ok((path.substring_char(9, i).to_owned(), n)),
        None => Err(PathFault::Number),
    }
}

/// The error that goes with a fault.
pub open spec fn path_error(f: PathFault) -> CelError {
    match f {
        PathFault::Prefix => CelError::Invalid("path: missing /cluster/ prefix"),
        PathFault::Shape => CelError::Invalid("path: expected /cluster/<node>/vms/<n>"),
        PathFault::EmptyNode => CelError::Invalid("path: empty node id"),
        PathFault::Segment => CelError::Invalid("path: expected /vms/<n> segment"),
        PathFault::Extra => CelError::Invalid("path: expected exactly one VM segment"),
        PathFault::Number => CelError::Invalid("path: VM id is not a u32"),
    }
}

/// Splits a path into a node and a VM of that node.
pub fn parse_cluster_path(path: &str) -> (r: CelResult<(NodeId, u32)>)
    ensures
        match parsed_path(path@, false) {
            Ok(p) => r matches Ok(x) && x.0@ == p.0 && x.1 == p.1,
            Err(f) => r == Err::<(NodeId, u32), CelError>(path_error(f)),
        },
{
    match parse_path(path, false) {
        Ok((node, n)) => Ok((NodeId(node), n)),
        Err(PathFault::Prefix) => Err(CelError::Invalid("path: missing /cluster/ prefix")),
        Err(PathFault::Shape) => Err(CelError::Invalid("path: expected /cluster/<node>/vms/<n>")),
        Err(PathFault::EmptyNode) => Err(CelError::Invalid("path: empty node id")),
        Err(PathFault::Segment) => Err(CelError::Invalid("path: expected /vms/<n> segment")),
        Err(PathFault::Extra) => Err(CelError::Invalid("path: expected exactly one VM segment")),
        Err(PathFault::Number) => Err(CelError::Invalid("path: VM id is not a u32")),
    }
}

/// The path of a VM.
pub open spec fn vm_path(owner: Seq<char>, vm_id: u32) -> Seq<char> {
    "/cluster/"@ + owner + "/vms/"@ + text::decimal(vm_id as nat)
}

/// The path of a VM parses back to the VM, for a node whose name holds no
/// slash.
pub proof fn law_path_round_trip(owner: Seq<char>, vm_id: u32, allow_empty: bool)
    requires
        !owner.contains('/'),
        owner.len() > 0 || allow_empty,
    ensures
        parsed_path(vm_path(owner, vm_id), allow_empty) == Ok::<(Seq<char>, u32), PathFault>(
            (owner, vm_id),
        ),
{
    reveal_strlit("/cluster/");
    reveal_strlit("vms/");
    reveal_strlit("/vms/");
    let s = vm_path(owner, vm_id);
    let d = text::decimal(vm_id as nat);
    let n = owner.len() as int;
    text::law_decimal_round_trip(vm_id as nat);
    text::law_parse_decimal(vm_id);
    assert(s.subrange(0, 9) =~= "/cluster/"@);
    lemma_position(s, '/', 9);
    let i = position_of(s, '/', 9);
    assert(s[9 + n] == '/');
    if i < 9 + n {
        assert(s[i] == owner[i - 9]);
        assert(owner.contains(owner[i - 9]));
    }
    assert(i == 9 + n);
    assert(s.subrange(i + 1, i + 5) =~= "vms/"@);
    assert(s.skip(i + 5) =~= d);
    lemma_position(s, '/', i + 5);
    let e = position_of(s, '/', i + 5);
    if e < s.len() {
        assert(s[e] == d[e - (i + 5)]);
        assert(text::is_digit(d[e - (i + 5)]));
    }
    assert(s.subrange(9, i) =~= owner);
}

} // verus!
