//! Tenancy-layer capability set and its textual form.

use vstd::prelude::*;
use vstd::string::*;

use crate::error::{CelError, CelResult};
use crate::mesh::capabilities::Capabilities;
use crate::text;
use crate::text::{chars_of, str_eq, trim_range};

verus! {

/// Number of capabilities.
pub const CAP_COUNT: u32 = 13;

/// Set of tenancy-layer capabilities. Each bit mirrors one capability of
/// [`Capabilities`].
#[derive(Debug, Clone, Copy, PartialEq, Eq, Structural)]
pub struct TenantCaps(pub u32);

/// The tag of capability number `i`.
pub open spec fn tag_of(i: int) -> &'static str {
    if i == 0 {
        "vm.read"
    } else if i == 1 {
        "vm.write"
    } else if i == 2 {
        "vol.read"
    } else if i == 3 {
        "vol.write"
    } else if i == 4 {
        "vol.attach"
    } else if i == 5 {
        "snap.read"
    } else if i == 6 {
        "snap.write"
    } else if i == 7 {
        "net.read"
    } else if i == 8 {
        "net.write"
    } else if i == 9 {
        "sg.read"
    } else if i == 10 {
        "sg.write"
    } else if i == 11 {
        "lb.read"
    } else {
        "lb.write"
    }
}

/// What a single tag stands for; nothing if it is unknown.
pub open spec fn bits_of_tag(tag: Seq<char>) -> Option<u32> {
    if tag == "none"@ {
        Some(0u32)
    } else if tag == "all"@ {
        Some(0x1fffu32)
    } else if tag == "vm.read"@ {
        Some(0x1u32)
    } else if tag == "vm.write"@ {
        Some(0x2u32)
    } else if tag == "vol.read"@ {
        Some(0x4u32)
    } else if tag == "vol.write"@ {
        Some(0x8u32)
    } else if tag == "vol.attach"@ {
        Some(0x10u32)
    } else if tag == "snap.read"@ {
        Some(0x20u32)
    } else if tag == "snap.write"@ {
        Some(0x40u32)
    } else if tag == "net.read"@ {
        Some(0x80u32)
    } else if tag == "net.write"@ {
        Some(0x100u32)
    } else if tag == "sg.read"@ {
        Some(0x200u32)
    } else if tag == "sg.write"@ {
        Some(0x400u32)
    } else if tag == "lb.read"@ {
        Some(0x800u32)
    } else if tag == "lb.write"@ {
        Some(0x1000u32)
    } else {
        None
    }
}

/// A tag without the optional `tenant.` prefix.
pub open spec fn normalised(tag: Seq<char>) -> Seq<char> {
    let p = "tenant."@;
    if tag.len() >= p.len() && tag.take(p.len() as int) == p {
        tag.skip(p.len() as int)
    } else {
        tag
    }
}

/// What one piece of a tag list adds: nothing if it is blank, the
/// capabilities of its tag otherwise.
pub open spec fn bits_of_piece(piece: Seq<char>) -> Option<u32> {
    let tag = text::trimmed(piece);
    if tag.len() == 0 {
        Some(0u32)
    } else {
        bits_of_tag(normalised(tag))
    }
}

/// Union of what the pieces stand for; nothing if one of them is unknown.
pub open spec fn bits_of_pieces(pieces: Seq<Seq<char>>) -> Option<u32>
    decreases pieces.len(),
{
    if pieces.len() == 0 {
        Some(0u32)
    } else {
        match (bits_of_pieces(pieces.drop_last()), bits_of_piece(pieces.last())) {
            (Some(a), Some(b)) => Some(a | b),
            _ => None,
        }
    }
}

/// What a comma-separated tag list stands for.
pub open spec fn parsed_tags(s: Seq<char>) -> CelResult<TenantCaps> {
    match bits_of_pieces(text::split_on(s, ',')) {
        Some(b) => Ok(TenantCaps(b)),
        None => Err(CelError::Invalid("tenant cap tag")),
    }
}

/// The tags of the first `n` capabilities that `caps` holds, in order.
pub open spec fn tag_list(caps: TenantCaps, n: int) -> Seq<Seq<char>>
    decreases n,
{
    if n <= 0 {
        Seq::empty()
    } else if caps.includes(TenantCaps((1u32 << ((n - 1) as u32)) as u32)) {
        tag_list(caps, n - 1).push(tag_of(n - 1)@)
    } else {
        tag_list(caps, n - 1)
    }
}

/// Textual form of a capability set.
pub open spec fn rendered_tags(caps: TenantCaps) -> Seq<char> {
    if caps.0 == 0 {
        "none"@
    } else if caps.0 == 0x1fff {
        "all"@
    } else {
        text::join(tag_list(caps, CAP_COUNT as int), ',')
    }
}

/// Looks up a single tag.
fn lookup_tag(tag: &str) -> (r: Option<u32>)
    ensures
        r == bits_of_tag(tag@),
{
    if str_eq(tag, "none") {
        Some(0)
    } else if str_eq(tag, "all") {
        Some(0x1fff)
    } else if str_eq(tag, "vm.read") {
        Some(0x1)
    } else if str_eq(tag, "vm.write") {
        Some(0x2)
    } else if str_eq(tag, "vol.read") {
        Some(0x4)
    } else if str_eq(tag, "vol.write") {
        Some(0x8)
    } else if str_eq(tag, "vol.attach") {
        Some(0x10)
    } else if str_eq(tag, "snap.read") {
        Some(0x20)
    } else if str_eq(tag, "snap.write") {
        Some(0x40)
    } else if str_eq(tag, "net.read") {
        Some(0x80)
    } else if str_eq(tag, "net.write") {
        Some(0x100)
    } else if str_eq(tag, "sg.read") {
        Some(0x200)
    } else if str_eq(tag, "sg.write") {
        Some(0x400)
    } else if str_eq(tag, "lb.read") {
        Some(0x800)
    } else if str_eq(tag, "lb.write") {
        Some(0x1000)
    } else {
        None
    }
}

/// The tag of capability number `i`.
fn tag_text(i: u32) -> (r: &'static str)
    requires
        i < CAP_COUNT,
    ensures
        r == tag_of(i as int),
{
    if i == 0 {
        "vm.read"
    } else if i == 1 {
        "vm.write"
    } else if i == 2 {
        "vol.read"
    } else if i == 3 {
        "vol.write"
    } else if i == 4 {
        "vol.attach"
    } else if i == 5 {
        "snap.read"
    } else if i == 6 {
        "snap.write"
    } else if i == 7 {
        "net.read"
    } else if i == 8 {
        "net.write"
    } else if i == 9 {
        "sg.read"
    } else if i == 10 {
        "sg.write"
    } else if i == 11 {
        "lb.read"
    } else {
        "lb.write"
    }
}

/// One step of the projection: the low bits seen so far, and one more.
proof fn lemma_project(x: u32, seen: u32, i: u32)
    requires
        i < 13,
        seen == x & ((pow_bit(i) - 1) as u32),
    ensures
        (if x & pow_bit(i) == pow_bit(i) {
            seen | pow_bit(i)
        } else {
            seen
        }) == x & ((pow_bit((i + 1) as u32) - 1) as u32),
{
    lemma_pow_bit(i);
    lemma_pow_bit((i + 1) as u32);
    let m = pow_bit(i);
    let k = pow_bit((i + 1) as u32);
    assert((if x & m == m {
        seen | m
    } else {
        seen
    }) == x & ((k - 1) as u32)) by (bit_vector)
        requires
            i < 13,
            m == 1u32 << i,
            k == 1u32 << ((i + 1) as u32),
            seen == x & ((m - 1) as u32),
    ;
}

/// The capability with number `i` as a literal.
pub open spec fn pow_bit(i: u32) -> u32 {
    if i == 0 {
        0x1
    } else if i == 1 {
        0x2
    } else if i == 2 {
        0x4
    } else if i == 3 {
        0x8
    } else if i == 4 {
        0x10
    } else if i == 5 {
        0x20
    } else if i == 6 {
        0x40
    } else if i == 7 {
        0x80
    } else if i == 8 {
        0x100
    } else if i == 9 {
        0x200
    } else if i == 10 {
        0x400
    } else if i == 11 {
        0x800
    } else if i == 12 {
        0x1000
    } else {
        0x2000
    }
}

proof fn lemma_pow_bit(i: u32)
    requires
        i <= 13,
    ensures
        1u32 << i == pow_bit(i),
{
    assert(1u32 << i == pow_bit(i)) by (bit_vector)
        requires
            i <= 13,
    ;
}

impl TenantCaps {
    /// No capability.
    #[verifier::allow_in_spec]
    pub fn none() -> TenantCaps
        returns
            TenantCaps(0u32),
    {
        TenantCaps(0)
    }

    /// Read-only VM lifecycle: `List`.
    #[verifier::allow_in_spec]
    pub fn vm_lifecycle_read() -> TenantCaps
        returns
            TenantCaps(0x1u32),
    {
        TenantCaps(0x1)
    }

    /// Mutating VM lifecycle: `Create`, `Start`, `Stop`, `Delete`.
    #[verifier::allow_in_spec]
    pub fn vm_lifecycle_write() -> TenantCaps
        returns
            TenantCaps(0x2u32),
    {
        TenantCaps(0x2)
    }

    /// Read-only volume access: `ListVolumes`, `ReadVolume`.
    #[verifier::allow_in_spec]
    pub fn volume_read() -> TenantCaps
        returns
            TenantCaps(0x4u32),
    {
        TenantCaps(0x4)
    }

    /// Mutating volume access: `CreateVolume`, `DeleteVolume`, `WriteVolume`.
    #[verifier::allow_in_spec]
    pub fn volume_write() -> TenantCaps
        returns
            TenantCaps(0x8u32),
    {
        TenantCaps(0x8)
    }

    /// Volume attachment: `AttachVolume`, `DetachVolume`.
    #[verifier::allow_in_spec]
    pub fn volume_attach() -> TenantCaps
        returns
            TenantCaps(0x10u32),
    {
        TenantCaps(0x10)
    }

    /// Read-only snapshots: `ListSnapshots`.
    #[verifier::allow_in_spec]
    pub fn snapshot_read() -> TenantCaps
        returns
            TenantCaps(0x20u32),
    {
        TenantCaps(0x20)
    }

    /// Mutating snapshots: `CreateSnapshot`, `DeleteSnapshot`, `RestoreSnapshot`.
    #[verifier::allow_in_spec]
    pub fn snapshot_write() -> TenantCaps
        returns
            TenantCaps(0x40u32),
    {
        TenantCaps(0x40)
    }

    /// Read-only networking: `ListNetworks`, `ListNics`.
    #[verifier::allow_in_spec]
    pub fn network_read() -> TenantCaps
        returns
            TenantCaps(0x80u32),
    {
        TenantCaps(0x80)
    }

    /// Mutating networking: networks and NICs.
    #[verifier::allow_in_spec]
    pub fn network_write() -> TenantCaps
        returns
            TenantCaps(0x100u32),
    {
        TenantCaps(0x100)
    }

    /// Read-only security groups: `ListSecurityGroups`.
    #[verifier::allow_in_spec]
    pub fn secgroup_read() -> TenantCaps
        returns
            TenantCaps(0x200u32),
    {
        TenantCaps(0x200)
    }

    /// Mutating security groups.
    #[verifier::allow_in_spec]
    pub fn secgroup_write() -> TenantCaps
        returns
            TenantCaps(0x400u32),
    {
        TenantCaps(0x400)
    }

    /// Read-only load balancers: `ListLoadBalancers`.
    #[verifier::allow_in_spec]
    pub fn lb_read() -> TenantCaps
        returns
            TenantCaps(0x800u32),
    {
        TenantCaps(0x800)
    }

    /// Mutating load balancers.
    #[verifier::allow_in_spec]
    pub fn lb_write() -> TenantCaps
        returns
            TenantCaps(0x1000u32),
    {
        TenantCaps(0x1000)
    }

    /// Every capability.
    #[verifier::allow_in_spec]
    pub fn all() -> TenantCaps
        returns
            TenantCaps(0x1fffu32),
    {
        TenantCaps(0x1fff)
    }

    /// Whether every capability of `other` is in this set.
    pub open spec fn includes(self, other: TenantCaps) -> bool {
        (self.0 & other.0) == other.0
    }

    /// Subset test.
    pub fn contains(self, other: TenantCaps) -> (r: bool)
        ensures
            r == self.includes(other),
    {
        (self.0 & other.0) == other.0
    }

    /// This set and `other` in one.
    pub open spec fn joined(self, other: TenantCaps) -> TenantCaps {
        TenantCaps(self.0 | other.0)
    }

    /// This set without `other`.
    pub open spec fn reduced(self, other: TenantCaps) -> TenantCaps {
        TenantCaps(self.0 & !other.0)
    }

    /// The set that raw bits stand for.
    pub open spec fn truncated(bits: u32) -> TenantCaps {
        TenantCaps(bits & 0x1fff)
    }

    /// Adds the capabilities of `other`.
    pub fn grant(&mut self, other: TenantCaps)
        ensures
            *final(self) == old(self).joined(other),
    {
        self.0 = self.0 | other.0;
    }

    /// Removes the capabilities of `other`.
    pub fn revoke(&mut self, other: TenantCaps)
        ensures
            *final(self) == old(self).reduced(other),
    {
        self.0 = self.0 & !other.0;
    }

    /// Raw bits.
    pub fn bits(self) -> (r: u32)
        ensures
            r == self.0,
    {
        self.0
    }

    /// Builds a set from raw bits; bits that stand for nothing are dropped.
    pub fn from_bits_truncate(bits: u32) -> (r: TenantCaps)
        ensures
            r == TenantCaps::truncated(bits),
    {
        TenantCaps(bits & 0x1fff)
    }

    /// Parses a comma-separated tag list. Blanks round a tag and empty pieces
    /// are ignored; each tag may carry the prefix `tenant.`.
    pub fn parse_tags(s: &str) -> (r: CelResult<TenantCaps>)
        ensures
            r == parsed_tags(s@),
    {
        let chars = chars_of(s);
        let n: usize = chars.len();
        let mut out: u32 = 0;
        let mut start: usize = 0;
        let mut i: usize = 0;
        let ghost mut done: Seq<Seq<char>> = Seq::empty();
        let prefix_len: usize = 7;
        proof {
            reveal_strlit("tenant.");
            assert(s@.take(0) =~= Seq::empty());
            assert(s@.subrange(0, 0) =~= Seq::empty());
            assert(text::split_on(s@.take(0), ',') =~= done.push(s@.subrange(0, 0)));
        }
        loop
            invariant
                start <= i <= n,
                chars@ == s@,
                n == s@.len(),
                prefix_len == 7,
                "tenant."@.len() == 7,
                text::split_on(s@.take(i as int), ',') == done.push(s@.subrange(start as int, i as int)),
                bits_of_pieces(done) == Some(out),
            decreases n - i + 1,
        {
            if i == n || chars[i] == ',' {
                let ghost piece = s@.subrange(start as int, i as int);
                let ghost all = done.push(piece);
                let (a, b) = trim_range(chars.as_slice(), start, i);
                let ghost tag = text::trimmed(piece);
                assert(s@.subrange(a as int, b as int) == tag);
                proof {
                    assert(all.drop_last() =~= done);
                    assert(all.last() == piece);
                }
                if a < b {
                    let full = s.substring_char(a, b);
                    let mut name: &str = full;
                    if b - a >= prefix_len {
                        let head = s.substring_char(a, a + prefix_len);
                        proof {
                            assert(tag.take(7) =~= head@);
                        }
                        if str_eq(head, "tenant.") {
                            name = s.substring_char(a + prefix_len, b);
                            proof {
                                assert(tag.skip(7) =~= name@);
                            }
                        }
                    }
                    assert(name@ == normalised(tag));
                    match lookup_tag(name) {
                        Some(bit) => {
                            out = out | bit;
                        },
                        None => {
                            proof {
                                assert(bits_of_pieces(all) is None);
                                lemma_unknown_piece(s@, i as int, all);
                            }
                            return Err(CelError::Invalid("tenant cap tag"));
                        },
                    }
                } else {
                    proof {
                        let x = out;
                        assert(x | 0u32 == x) by (bit_vector);
                        assert(tag.len() == 0);
                    }
                }
                assert(bits_of_pieces(all) == Some(out));
                if i == n {
                    assert(s@.take(i as int) =~= s@);
                    return Ok(TenantCaps(out));
                }
                proof {
                    done = all;
                    let t = s@.take(i + 1);
                    assert(t.drop_last() =~= s@.take(i as int));
                    assert(s@.subrange(i + 1, i + 1) =~= Seq::empty());
                }
                start = i + 1;
                i = i + 1;
            } else {
                proof {
                    let t = s@.take(i + 1);
                    assert(t.drop_last() =~= s@.take(i as int));
                    let p = done.push(s@.subrange(start as int, i as int));
                    assert(p.drop_last() =~= done);
                    assert(s@.subrange(start as int, i as int).push(s@[i as int]) =~= s@.subrange(
                        start as int,
                        i + 1,
                    ));
                }
                i = i + 1;
            }
        }
    }

    /// Renders the set as a comma-separated tag list, in a fixed order.
    pub fn to_tags(self) -> (r: String)
        ensures
            r@ == rendered_tags(self),
    {
        if self.0 == 0 {
            return "none".to_owned();
        }
        if self.0 == 0x1fff {
            return "all".to_owned();
        }
        let mut out = String::new();
        let mut empty = true;
        let mut i: u32 = 0;
        while i < CAP_COUNT
            invariant
                i <= CAP_COUNT,
                out@ == text::join(tag_list(self, i as int), ','),
                empty == (tag_list(self, i as int).len() == 0),
            decreases CAP_COUNT - i,
        {
            if self.contains(TenantCaps(1u32 << i)) {
                let ghost l = tag_list(self, i as int);
                let ghost m = l.push(tag_of(i as int)@);
                proof {
                    assert(m.drop_last() =~= l);
                    assert(m == tag_list(self, i + 1));
                    reveal_strlit(",");
                }
                if !empty {
                    out.append(",");
                    assert(out@ =~= text::join(l, ',').push(','));
                }
                out.append(tag_text(i));
                empty = false;
                assert(out@ =~= text::join(m, ','));
            }
            i = i + 1;
        }
        out
    }

    /// Projects to the capability set of a VM host.
    pub fn to_mesh_capabilities(self) -> (r: Capabilities)
        ensures
            r.0 == self.0 & 0x1fff,
    {
        let mut c = Capabilities::none();
        let ghost mut before: u32 = c.0;
        proof {
            let x = self.0;
            assert(x & 0u32 == 0u32) by (bit_vector);
        }
        if self.contains(TenantCaps::vm_lifecycle_read()) {
            c = c | Capabilities::vm_lifecycle_read();
        }
        proof {
            lemma_project(self.0, before, 0u32);
            before = c.0;
        }
        if self.contains(TenantCaps::vm_lifecycle_write()) {
            c = c | Capabilities::vm_lifecycle_write();
        }
        proof {
            lemma_project(self.0, before, 1u32);
            before = c.0;
        }
        if self.contains(TenantCaps::volume_read()) {
            c = c | Capabilities::volume_read();
        }
        proof {
            lemma_project(self.0, before, 2u32);
            before = c.0;
        }
        if self.contains(TenantCaps::volume_write()) {
            c = c | Capabilities::volume_write();
        }
        proof {
            lemma_project(self.0, before, 3u32);
            before = c.0;
        }
        if self.contains(TenantCaps::volume_attach()) {
            c = c | Capabilities::volume_attach();
        }
        proof {
            lemma_project(self.0, before, 4u32);
            before = c.0;
        }
        if self.contains(TenantCaps::snapshot_read()) {
            c = c | Capabilities::snapshot_read();
        }
        proof {
            lemma_project(self.0, before, 5u32);
            before = c.0;
        }
        if self.contains(TenantCaps::snapshot_write()) {
            c = c | Capabilities::snapshot_write();
        }
        proof {
            lemma_project(self.0, before, 6u32);
            before = c.0;
        }
        if self.contains(TenantCaps::network_read()) {
            c = c | Capabilities::network_read();
        }
        proof {
            lemma_project(self.0, before, 7u32);
            before = c.0;
        }
        if self.contains(TenantCaps::network_write()) {
            c = c | Capabilities::network_write();
        }
        proof {
            lemma_project(self.0, before, 8u32);
            before = c.0;
        }
        if self.contains(TenantCaps::secgroup_read()) {
            c = c | Capabilities::secgroup_read();
        }
        proof {
            lemma_project(self.0, before, 9u32);
            before = c.0;
        }
        if self.contains(TenantCaps::secgroup_write()) {
            c = c | Capabilities::secgroup_write();
        }
        proof {
            lemma_project(self.0, before, 10u32);
            before = c.0;
        }
        if self.contains(TenantCaps::lb_read()) {
            c = c | Capabilities::lb_read();
        }
        proof {
            lemma_project(self.0, before, 11u32);
            before = c.0;
        }
        if self.contains(TenantCaps::lb_write()) {
            c = c | Capabilities::lb_write();
        }
        proof {
            lemma_project(self.0, before, 12u32);
            before = c.0;
        }
        c
    }
}

impl Default for TenantCaps {
    fn default() -> (r: TenantCaps)
        ensures
            r == TenantCaps(0u32),
    {
        TenantCaps(0)
    }
}

impl core::ops::BitOr for TenantCaps {
    type Output = TenantCaps;

    fn bitor(self, rhs: TenantCaps) -> (r: TenantCaps) {
        TenantCaps(self.0 | rhs.0)
    }
}

impl vstd::std_specs::ops::BitOrSpecImpl for TenantCaps {
    open spec fn obeys_bitor_spec() -> bool {
        true
    }

    open spec fn bitor_req(self, rhs: TenantCaps) -> bool {
        true
    }

    open spec fn bitor_spec(self, rhs: TenantCaps) -> TenantCaps {
        TenantCaps(self.0 | rhs.0)
    }
}

impl core::ops::BitOrAssign for TenantCaps {
    fn bitor_assign(&mut self, rhs: TenantCaps)
        ensures
            final(self).0 == old(self).0 | rhs.0,
    {
        self.0 = self.0 | rhs.0;
    }
}

/// Computes the capability set of a user inside a tenant: what was asked for,
/// provided that the tenant's root set holds all of it.
pub fn attenuate(root: TenantCaps, requested: TenantCaps) -> (r: CelResult<TenantCaps>)
    ensures
        r == attenuated(root, requested),
{
    if !root.contains(requested) {
        return Err(CelError::CapabilityDenied("tenant.user.attenuate"));
    }
    Ok(requested)
}

/// See [`attenuate`].
pub open spec fn attenuated(root: TenantCaps, requested: TenantCaps) -> CelResult<TenantCaps> {
    if root.includes(requested) {
        Ok(requested)
    } else {
        Err(CelError::CapabilityDenied("tenant.user.attenuate"))
    }
}

/// A piece that stands for nothing spoils the whole list.
proof fn lemma_unknown_piece(s: Seq<char>, i: int, pieces: Seq<Seq<char>>)
    requires
        0 <= i <= s.len(),
        text::split_on(s.take(i), ',') == pieces,
        i < s.len() ==> s[i] == ',',
        bits_of_pieces(pieces) is None,
    ensures
        bits_of_pieces(text::split_on(s, ',')) is None,
{
    if i == s.len() {
        assert(s.take(i) =~= s);
    } else {
        lemma_unknown_prefix(s, i, s.len() as int, pieces);
        assert(s.take(s.len() as int) =~= s);
    }
}

/// The pieces before a separator stay as they are.
proof fn lemma_unknown_prefix(s: Seq<char>, i: int, j: int, pieces: Seq<Seq<char>>)
    requires
        0 <= i < j <= s.len(),
        text::split_on(s.take(i), ',') == pieces,
        s[i] == ',',
        bits_of_pieces(pieces) is None,
    ensures
        bits_of_pieces(text::split_on(s.take(j), ',')) is None,
        text::split_on(s.take(j), ',').len() > pieces.len(),
        text::split_on(s.take(j), ',').take(pieces.len() as int) == pieces,
    decreases j,
{
    let t = s.take(j);
    assert(t.drop_last() =~= s.take(j - 1));
    text::lemma_split_nonempty(s.take(i), ',');
    let p = text::split_on(t, ',');
    if j == i + 1 {
        assert(p == pieces.push(Seq::empty()));
        assert(p.take(pieces.len() as int) =~= pieces);
    } else {
        lemma_unknown_prefix(s, i, j - 1, pieces);
        let q = text::split_on(s.take(j - 1), ',');
        if t.last() == ',' {
            assert(p.take(pieces.len() as int) =~= q.take(pieces.len() as int));
        } else {
            assert(p.take(pieces.len() as int) =~= q.take(pieces.len() as int));
        }
    }
    lemma_none_prefix(p, pieces.len() as int);
}

/// A prefix that stands for nothing makes the whole stand for nothing.
proof fn lemma_none_prefix(p: Seq<Seq<char>>, k: int)
    requires
        0 <= k <= p.len(),
        bits_of_pieces(p.take(k)) is None,
    ensures
        bits_of_pieces(p) is None,
    decreases p.len(),
{
    if k == p.len() {
        assert(p.take(k) =~= p);
    } else {
        assert(p.drop_last().take(k) =~= p.take(k));
        lemma_none_prefix(p.drop_last(), k);
    }
}

/// Facts about the tags themselves: none holds a comma, none starts with the
/// optional prefix, and each stands for its own capability.
proof fn lemma_tag(i: u32)
    requires
        i < CAP_COUNT,
    ensures
        tag_of(i as int)@.len() > 0,
        !tag_of(i as int)@.contains(','),
        bits_of_piece(tag_of(i as int)@) == Some(pow_bit(i)),
{
    reveal_strlit("none");
    reveal_strlit("all");
    reveal_strlit("vm.read");
    reveal_strlit("vm.write");
    reveal_strlit("vol.read");
    reveal_strlit("vol.write");
    reveal_strlit("vol.attach");
    reveal_strlit("snap.read");
    reveal_strlit("snap.write");
    reveal_strlit("net.read");
    reveal_strlit("net.write");
    reveal_strlit("sg.read");
    reveal_strlit("sg.write");
    reveal_strlit("lb.read");
    reveal_strlit("lb.write");
    reveal_strlit("tenant.");
    let t = tag_of(i as int)@;
    assert(t.len() >= 7);
    assert(t[0] != 't' && !text::is_white(t[0]) && !text::is_white(t.last()));
    assert(text::trimmed(t) == t);
    if t.len() >= 7 {
        assert(t.take(7)[0] == t[0]);
        assert("tenant."@[0] == 't');
    }
    assert(normalised(t) == t);
    assert(bits_of_tag(t) == Some(pow_bit(i)));
}

/// The tags of a set stand for the set.
proof fn lemma_tag_list(caps: TenantCaps, n: u32)
    requires
        n <= CAP_COUNT,
    ensures
        bits_of_pieces(tag_list(caps, n as int)) == Some(caps.0 & ((pow_bit(n) - 1) as u32)),
        forall|k: int|
            0 <= k < tag_list(caps, n as int).len() ==> !(#[trigger] tag_list(
                caps,
                n as int,
            )[k]).contains(','),
    decreases n,
{
    if n == 0 {
        let x = caps.0;
        assert(x & 0u32 == 0u32) by (bit_vector);
    } else {
        let m = (n - 1) as u32;
        lemma_tag_list(caps, m);
        lemma_tag(m);
        lemma_pow_bit(m);
        lemma_project(caps.0, caps.0 & ((pow_bit(m) - 1) as u32), m);
        let l = tag_list(caps, m as int);
        if caps.includes(TenantCaps(1u32 << m)) {
            assert(l.push(tag_of(m as int)@).drop_last() =~= l);
        }
    }
}

/// Parsing the textual form of a set gives the set back.
pub proof fn law_tags_round_trip(caps: TenantCaps)
    requires
        caps.0 & 0x1fff == caps.0,
    ensures
        parsed_tags(rendered_tags(caps)) == Ok::<TenantCaps, CelError>(caps),
{
    let x = caps.0;
    assert(0u32 | 0u32 == 0u32 && 0u32 | 0x1fffu32 == 0x1fffu32) by (bit_vector);
    if x == 0 || x == 0x1fff {
        reveal_strlit("none");
        reveal_strlit("all");
        reveal_strlit("tenant.");
        let t = rendered_tags(caps);
        assert(t[0] != 't' && !text::is_white(t[0]) && !text::is_white(t.last()));
        assert(text::trimmed(t) == t);
        assert(!t.contains(','));
        let one = seq![t];
        text::law_split_join(one, ',');
        assert(one.drop_last() =~= Seq::<Seq<char>>::empty());
        assert(one.last() == t);
        assert(bits_of_pieces(Seq::<Seq<char>>::empty()) == Some(0u32));
        assert(bits_of_pieces(one) == Some(x));
    } else {
        lemma_tag_list(caps, CAP_COUNT);
        let l = tag_list(caps, CAP_COUNT as int);
        if l.len() == 0 {
            assert(bits_of_pieces(l) == Some(0u32));
        }
        text::law_split_join(l, ',');
    }
}

/// What attenuation grants is what was asked for, and never more than the
/// root set holds.
pub proof fn law_attenuate(root: TenantCaps, requested: TenantCaps)
    ensures
        attenuated(root, requested) matches Ok(c) ==> c == requested && root.includes(c),
        attenuated(root, requested) is Ok <==> root.includes(requested),
{
}

/// Who is granted something holds that and what was held before, and nothing
/// else. Who has something revoked holds none of it, and all else that was held
/// before. Raw bits that stand for a capability are kept, and no others.
pub proof fn law_granting_and_revoking(c: TenantCaps, d: TenantCaps, e: TenantCaps)
    ensures
        c.joined(d).includes(c),
        c.joined(d).includes(d),
        e.includes(c) && e.includes(d) ==> e.includes(c.joined(d)),
        c.includes(c.reduced(d)),
        c.includes(e) && e.0 & d.0 == 0 ==> c.reduced(d).includes(e),
        d.includes(e) && c.reduced(d).includes(e) ==> e == TenantCaps::none(),
        TenantCaps::all().includes(TenantCaps::truncated(c.0)),
        TenantCaps::all().includes(e) ==> (TenantCaps::truncated(c.0).includes(e) <==> c.includes(e)),
{
    let (x, y, z) = (c.0, d.0, e.0);
    assert((x | y) & x == x && (x | y) & y == y && (z & x == x && z & y == y ==> z & (x | y) == x
        | y)) by (bit_vector);
    assert(x & (x & !y) == x & !y && (x & z == z && z & y == 0 ==> (x & !y) & z == z) && (y & z == z
        && (x & !y) & z == z ==> z == 0)) by (bit_vector);
    assert(0x1fffu32 & (x & 0x1fff) == x & 0x1fff && (0x1fffu32 & z == z ==> ((x & 0x1fff) & z == z)
        == (x & z == z))) by (bit_vector);
}

/// A capability of a tenant is the capability of the same name of a VM host.
pub proof fn law_same_rights_on_a_host()
    ensures
        TenantCaps::vm_lifecycle_read().0 == Capabilities::vm_lifecycle_read().0,
        TenantCaps::vm_lifecycle_write().0 == Capabilities::vm_lifecycle_write().0,
        TenantCaps::volume_read().0 == Capabilities::volume_read().0,
        TenantCaps::volume_write().0 == Capabilities::volume_write().0,
        TenantCaps::volume_attach().0 == Capabilities::volume_attach().0,
        TenantCaps::snapshot_read().0 == Capabilities::snapshot_read().0,
        TenantCaps::snapshot_write().0 == Capabilities::snapshot_write().0,
        TenantCaps::network_read().0 == Capabilities::network_read().0,
        TenantCaps::network_write().0 == Capabilities::network_write().0,
        TenantCaps::secgroup_read().0 == Capabilities::secgroup_read().0,
        TenantCaps::secgroup_write().0 == Capabilities::secgroup_write().0,
        TenantCaps::lb_read().0 == Capabilities::lb_read().0,
        TenantCaps::lb_write().0 == Capabilities::lb_write().0,
        TenantCaps::all().0 == Capabilities::all().0,
        TenantCaps::none().0 == Capabilities::none().0,
{
}

/// Which tag stands for which capability.
pub proof fn law_tag_names()
    ensures
        bits_of_piece("vm.read"@) == Some(TenantCaps::vm_lifecycle_read().0),
        bits_of_piece("vm.write"@) == Some(TenantCaps::vm_lifecycle_write().0),
        bits_of_piece("vol.read"@) == Some(TenantCaps::volume_read().0),
        bits_of_piece("vol.write"@) == Some(TenantCaps::volume_write().0),
        bits_of_piece("vol.attach"@) == Some(TenantCaps::volume_attach().0),
        bits_of_piece("snap.read"@) == Some(TenantCaps::snapshot_read().0),
        bits_of_piece("snap.write"@) == Some(TenantCaps::snapshot_write().0),
        bits_of_piece("net.read"@) == Some(TenantCaps::network_read().0),
        bits_of_piece("net.write"@) == Some(TenantCaps::network_write().0),
        bits_of_piece("sg.read"@) == Some(TenantCaps::secgroup_read().0),
        bits_of_piece("sg.write"@) == Some(TenantCaps::secgroup_write().0),
        bits_of_piece("lb.read"@) == Some(TenantCaps::lb_read().0),
        bits_of_piece("lb.write"@) == Some(TenantCaps::lb_write().0),
        bits_of_tag("all"@) == Some(TenantCaps::all().0),
        bits_of_tag("none"@) == Some(TenantCaps::none().0),
{
    reveal_strlit("none");
    reveal_strlit("all");
    assert("all"@.len() != "none"@.len());
    lemma_tag(0);
    lemma_tag(1);
    lemma_tag(2);
    lemma_tag(3);
    lemma_tag(4);
    lemma_tag(5);
    lemma_tag(6);
    lemma_tag(7);
    lemma_tag(8);
    lemma_tag(9);
    lemma_tag(10);
    lemma_tag(11);
    lemma_tag(12);
}

/// A tag may carry the prefix `tenant.`, and white space round it does not
/// matter.
pub proof fn law_prefix_and_blanks(tag: Seq<char>)
    requires
        tag.len() > 0,
        !text::is_white(tag[0]),
        !text::is_white(tag.last()),
    ensures
        bits_of_piece("tenant."@ + tag) == bits_of_tag(tag),
        bits_of_piece(seq![' '] + tag) == bits_of_piece(tag),
        bits_of_piece(tag.push(' ')) == bits_of_piece(tag),
        bits_of_piece(seq![' ']) == Some(0u32),
{
    reveal_strlit("tenant.");
    let p = "tenant."@ + tag;
    assert(text::trimmed(p) == p);
    assert(p.take(7) =~= "tenant."@);
    assert(p.skip(7) =~= tag);
    let a = seq![' '] + tag;
    assert(a.skip(1) =~= tag);
    assert(text::trim_start(tag) == tag);
    assert(text::trim_start(a) == tag);
    assert(text::trim_end(tag) == tag);
    let b = tag.push(' ');
    assert(b.drop_last() =~= tag);
    assert(text::trim_start(b) == b);
    assert(text::trim_end(b) == tag);
    let c = seq![' '];
    assert(c.skip(1) =~= Seq::<char>::empty());
    assert(text::trim_start(c.skip(1)) == c.skip(1));
    assert(text::trim_start(c) =~= Seq::<char>::empty());
    assert(text::trimmed(c).len() == 0);
}

proof fn lemma_pieces_joined(a: Seq<Seq<char>>, b: Seq<Seq<char>>)
    ensures
        bits_of_pieces(a + b) == (match (bits_of_pieces(a), bits_of_pieces(b)) {
            (Some(x), Some(y)) => Some(x | y),
            _ => None,
        }),
    decreases b.len(),
{
    if b.len() == 0 {
        assert(a + b =~= a);
        if let Some(x) = bits_of_pieces(a) {
            assert(x | 0u32 == x) by (bit_vector);
        }
    } else {
        lemma_pieces_joined(a, b.drop_last());
        assert((a + b).drop_last() =~= a + b.drop_last());
        assert((a + b).last() == b.last());
        if bits_of_pieces(a) is Some && bits_of_pieces(b.drop_last()) is Some && bits_of_piece(
            b.last(),
        ) is Some {
            let x = bits_of_pieces(a)->0;
            let y = bits_of_pieces(b.drop_last())->0;
            let z = bits_of_piece(b.last())->0;
            assert((x | y) | z == x | (y | z)) by (bit_vector);
        }
    }
}

/// A list of tags stands for everything that its parts stand for; it is refused
/// exactly if one of them is.
pub proof fn law_tag_lists_add_up(a: Seq<char>, b: Seq<char>)
    ensures
        parsed_tags(a.push(',') + b) is Ok <==> parsed_tags(a) is Ok && parsed_tags(b) is Ok,
        parsed_tags(a) is Ok && parsed_tags(b) is Ok ==> parsed_tags(a.push(',') + b) == Ok::<
            TenantCaps,
            CelError,
        >(parsed_tags(a)->Ok_0.joined(parsed_tags(b)->Ok_0)),
{
    text::law_split_at(a, b, ',');
    lemma_pieces_joined(text::split_on(a, ','), text::split_on(b, ','));
}

} // verus!
