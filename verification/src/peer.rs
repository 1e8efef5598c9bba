//! Peer identity: a stable `(hostname, uuid)` pair with a canonical
//! textual form `"<hostname>;<uuid>"` used as the discovery service name.

use vstd::prelude::*;
use vstd::string::StringSliceAdditionalSpecFns;
use vstd::string::StringExecFns;
use crate::text::{
    uuid_text, parse_uuid_text, format_uuid, parse_uuid_ascii, ascii_chars_of,
    lemma_ascii_string_chars, lemma_uuid_text_roundtrip,
};

verus! {

/// Mathematical value of a [`PeerId`].
pub struct PeerIdV {
    pub hostname: Seq<char>,
    pub uuid: u128,
}

/// Stable identity for a host, generated once per install.
pub struct PeerId {
    pub hostname: String,
    pub uuid: u128,
}

impl View for PeerId {
    type V = PeerIdV;

    open spec fn view(&self) -> PeerIdV {
        PeerIdV { hostname: self.hostname@, uuid: self.uuid }
    }
}

impl DeepView for PeerId {
    type V = PeerIdV;

    open spec fn deep_view(&self) -> PeerIdV {
        self@
    }
}

impl Clone for PeerId {
    fn clone(&self) -> (r: Self)
        ensures
            r@ == self@,
    {
        PeerId { hostname: self.hostname.clone(), uuid: self.uuid }
    }
}

/// The canonical textual form of a peer identity.
pub open spec fn peer_text(p: PeerIdV) -> Seq<char> {
    p.hostname + seq![';'] + uuid_text(p.uuid)
}

/// A hostname fit for the canonical form: ASCII without a separator.
pub open spec fn hostname_wf(h: Seq<char>) -> bool {
    vstd::utf8::is_ascii_chars(h) && forall|i: int| 0 <= i < h.len() ==> h[i] != ';'
}

/// `i` is the position of the first `';'` of `s`.
pub open spec fn is_first_semi(s: Seq<char>, i: int) -> bool {
    0 <= i < s.len() && s[i] == ';' && forall|j: int| 0 <= j < i ==> s[j] != ';'
}

/// The identity a canonical text stands for, if it is one: everything
/// before the first `';'` is the hostname, what follows must be the
/// hyphenated hexadecimal identifier. Only ASCII text is canonical.
pub open spec fn parse_peer_text(s: Seq<char>) -> Option<PeerIdV> {
    if !vstd::utf8::is_ascii_chars(s) {
        None
    } else if exists|i: int| is_first_semi(s, i) {
        let i = choose|i: int| is_first_semi(s, i);
        match parse_uuid_text(s.skip(i + 1)) {
            Some(u) => Some(PeerIdV { hostname: s.take(i), uuid: u }),
            None => None,
        }
    } else {
        None
    }
}

impl PeerId {
    /// Equality on the canonical identity value.
    pub fn eq_peer(&self, other: &PeerId) -> (r: bool)
        ensures
            r == (self@ == other@),
    {
        let hosts_equal = self.hostname == other.hostname;
        if hosts_equal && self.uuid == other.uuid {
            assert(self@ == other@);
            true
        } else {
            assert(self@ != other@);
            false
        }
    }

    /// The canonical textual form `"<hostname>;<uuid>"`.
    pub fn to_string(&self) -> (r: String)
        ensures
            r@ == peer_text(self@),
    {
        let mut s = self.hostname.clone();
        proof {
            reveal_strlit(";");
        }
        s.append(";");
        let u = format_uuid(self.uuid);
        s.append(u.as_str());
        proof {
            assert(";"@ =~= seq![';']);
            assert(s@ =~= peer_text(self@));
        }
        s
    }

    /// Read an identity back from its canonical textual form.
    pub fn parse(instance: &str) -> (r: Option<PeerId>)
        ensures
            match r {
                Some(p) => parse_peer_text(instance@) matches Some(v) && p@ == v,
                None => parse_peer_text(instance@) is None,
            },
    {
        let ghost s = instance@;
        if !instance.is_ascii() {
            return None;
        }
        proof {
            lemma_ascii_string_chars(instance);
        }
        let bytes = instance.as_bytes();
        let n = bytes.len();
        let mut i: usize = 0;
        while i < n && bytes[i] != 0x3b
            invariant
                i <= n,
                n == bytes@.len(),
                s == instance@,
                vstd::utf8::is_ascii_chars(s),
                s.len() == n,
                forall|j: int| 0 <= j < s.len() ==> #[trigger] bytes@[j] == s[j] as u8,
                forall|j: int| 0 <= j < s.len() ==> #[trigger] bytes@[j] < 0x80,
                forall|j: int| 0 <= j < i ==> s[j] != ';',
            decreases n - i,
        {
            proof {
                lemma_not_semi_byte(s, bytes@, i as int);
            }
            i = i + 1;
        }
        if i == n {
            proof {
                assert(forall|k: int| 0 <= k < s.len() ==> s[k] != ';');
                assert(!exists|k: int| is_first_semi(s, k));
            }
            return None;
        }
        proof {
            lemma_semi_byte(s, bytes@, i as int);
            assert(is_first_semi(s, i as int));
        }
        let ghost fi = i as int;
        assert(is_first_semi(s, fi));
        let host_bytes = vstd::slice::slice_subrange(bytes, 0, i);
        let hostname = crate::text::ascii_to_string(host_bytes);
        let uuid_res = parse_uuid_ascii(bytes, i + 1);
        proof {
            assert forall|k: int|
                0 <= k < s.take(fi).len() implies #[trigger] ascii_chars_of(bytes@.subrange(0, fi))[k]
                == s.take(fi)[k] by {
                lemma_byte_char(s, bytes@, k);
            }
            assert(ascii_chars_of(bytes@.subrange(0, fi)) =~= s.take(fi));
            assert forall|k: int|
                0 <= k < s.skip(fi + 1).len() implies #[trigger] ascii_chars_of(
                bytes@.skip(fi + 1),
            )[k] == s.skip(fi + 1)[k] by {
                lemma_byte_char(s, bytes@, k + fi + 1);
            }
            assert(ascii_chars_of(bytes@.skip(fi + 1)) =~= s.skip(fi + 1));
            assert forall|k: int| is_first_semi(s, k) implies k == fi by {
                if k < fi {
                    assert(s[k] != ';');
                } else if k > fi {
                    assert(s[fi] != ';');
                }
            }
        }
        match uuid_res {
            Some(u) => {
                let p = PeerId { hostname, uuid: u };
                proof {
                    assert(parse_peer_text(s) matches Some(v) && v == p@);
                }
                Some(p)
            },
            None => {
                proof {
                    assert(parse_peer_text(s) is None);
                }
                None
            },
        }
    }

    /// Make a fresh identity: the machine's hostname (or a generic stand-in
    /// where it is unusable in the canonical form) and a random identifier.
    pub fn generate() -> (r: PeerId)
        ensures
            hostname_wf(r@.hostname),
            uuid_version(r@.uuid) == 4,
    {
        let hostname = match os_hostname() {
            Some(h) => {
                if hostname_acceptable(&h) {
                    h
                } else {
                    fallback_hostname()
                }
            },
            None => fallback_hostname(),
        };
        let uuid = random_uuid();
        PeerId { hostname, uuid }
    }
}

/// The version field of an identifier: the 13th hexadecimal digit.
pub open spec fn uuid_version(x: u128) -> u128 {
    (x >> 76) & 0xf
}

fn fallback_hostname() -> (r: String)
    ensures
        hostname_wf(r@),
{
    proof {
        reveal_strlit("generic_hostname");
    }
    let r = "generic_hostname".to_owned();
    proof {
        assert(r@.len() == 16);
        assert forall|i: int| 0 <= i < r@.len() implies '\0' <= #[trigger] r@[i] <= '\u{7f}'
            && r@[i] != ';' by {
            assert(r@ =~= "generic_hostname"@);
        }
    }
    r
}

/// A hostname usable in the canonical textual form.
fn hostname_acceptable(h: &String) -> (r: bool)
    ensures
        r == hostname_wf(h@),
{
    let hs = h.as_str();
    if !hs.is_ascii() {
        proof {
            assert(!vstd::utf8::is_ascii_chars(h@));
        }
        return false;
    }
    proof {
        lemma_ascii_string_chars(hs);
    }
    let bytes = hs.as_bytes();
    let ghost s = h@;
    let n = bytes.len();
    let mut i: usize = 0;
    while i < n
        invariant
            i <= n,
            n == bytes@.len(),
            s == h@,
            vstd::utf8::is_ascii_chars(s),
            s.len() == n,
            forall|j: int| 0 <= j < s.len() ==> #[trigger] bytes@[j] == s[j] as u8,
            forall|j: int| 0 <= j < s.len() ==> #[trigger] bytes@[j] < 0x80,
            forall|j: int| 0 <= j < i ==> s[j] != ';',
        decreases n - i,
    {
        if bytes[i] == 0x3b {
            proof {
                lemma_semi_byte(s, bytes@, i as int);
            }
            return false;
        }
        proof {
            lemma_not_semi_byte(s, bytes@, i as int);
        }
        i = i + 1;
    }
    true
}

proof fn lemma_byte_char(s: Seq<char>, bytes: Seq<u8>, i: int)
    requires
        vstd::utf8::is_ascii_chars(s),
        s.len() == bytes.len(),
        0 <= i < s.len(),
        bytes[i] == s[i] as u8,
    ensures
        bytes[i] as char == s[i],
{
    let c = s[i];
    assert('\0' <= c <= '\u{7f}');
    assert(c as u32 <= 0x7f);
    assert(bytes[i] == c as u32);
    vstd::utf8::char_u32_cast(c, c as u32);
}

proof fn lemma_semi_byte(s: Seq<char>, bytes: Seq<u8>, i: int)
    requires
        vstd::utf8::is_ascii_chars(s),
        s.len() == bytes.len(),
        0 <= i < s.len(),
        bytes[i] == s[i] as u8,
        bytes[i] == 0x3b,
    ensures
        s[i] == ';',
{
    lemma_byte_char(s, bytes, i);
    assert(0x3bu8 as char == ';');
}

proof fn lemma_not_semi_byte(s: Seq<char>, bytes: Seq<u8>, i: int)
    requires
        vstd::utf8::is_ascii_chars(s),
        s.len() == bytes.len(),
        0 <= i < s.len(),
        bytes[i] == s[i] as u8,
        bytes[i] != 0x3b,
    ensures
        s[i] != ';',
{
    lemma_byte_char(s, bytes, i);
    assert(';' as u32 == 0x3b);
}

/// Relies on `uuid::Uuid::new_v4`: a fresh random identifier whose version
/// field reads 4, returned as its 128-bit big-endian value.
#[verifier::external_body]
fn random_uuid() -> (r: u128)
    ensures
        uuid_version(r) == 4,
{
    uuid::Uuid::new_v4().as_u128()
}

/// Relies on `hostname::get`: the machine's hostname, where the system
/// reports one that is valid Unicode.
#[verifier::external_body]
fn os_hostname() -> (r: Option<String>)
{
    match hostname::get() {
        Ok(h) => h.into_string().ok(),
        Err(_) => None,
    }
}

/// Parsing the canonical text of a well-formed identity gives it back.
pub proof fn lemma_peer_text_roundtrip(p: PeerIdV)
    requires
        hostname_wf(p.hostname),
    ensures
        parse_peer_text(peer_text(p)) == Some(p),
{
    let s = peer_text(p);
    let i = p.hostname.len() as int;
    lemma_uuid_text_roundtrip(p.uuid);
    assert(s[i] == ';');
    assert forall|j: int| 0 <= j < i implies s[j] != ';' by {
        assert(s[j] == p.hostname[j]);
    }
    assert(is_first_semi(s, i));
    assert forall|k: int| is_first_semi(s, k) implies k == i by {
        if k < i {
            assert(s[k] != ';');
        } else if k > i {
            assert(s[i] != ';');
        }
    }
    assert forall|j: int| 0 <= j < s.len() implies '\0' <= #[trigger] s[j] <= '\u{7f}' by {
        if j < i {
            assert(s[j] == p.hostname[j]);
        } else if j == i {
            assert(s[j] == ';');
        } else {
            assert(s[j] == uuid_text(p.uuid)[j - i - 1]);
            lemma_uuid_char_ascii(p.uuid, j - i - 1);
        }
    }
    assert(vstd::utf8::is_ascii_chars(s));
    assert(s.skip(i + 1) =~= uuid_text(p.uuid));
    assert(s.take(i) =~= p.hostname);
    let fi = choose|k: int| is_first_semi(s, k);
    assert(fi == i);
}

proof fn lemma_uuid_char_ascii(x: u128, p: int)
    requires
        0 <= p < 36,
    ensures
        '\0' <= uuid_text(x)[p] <= '\u{7f}',
        uuid_text(x)[p] != ';',
{
    if p == 8 || p == 13 || p == 18 || p == 23 {
    } else {
        let d = crate::text::nibble(x, p - crate::text::hyphens_before(p));
        let sh: u128 = ((31 - (p - crate::text::hyphens_before(p))) * 4) as u128;
        assert((x >> sh) & 0xf < 16) by (bit_vector);
        assert(d < 16);
    }
}

} // verus!
