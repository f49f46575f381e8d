//! The companion feed: what is sent to companion tools, packet by packet.
//!
//! A response is padded with an empty header, encrypted under a fixed key and sent as one packet, or
//! as a count followed by parts when it is large; the key and the initial vector follow. A request
//! is sent as it is.

use vstd::prelude::*;
use vstd::slice::slice_subrange;

use cbc::cipher::block_padding::Pkcs7;
use cbc::cipher::{BlockEncryptMut, KeyIvInit};

use crate::runtime::allowed;
use crate::runtime::{Power, Subsystem};

verus! {

/// The largest body that is sent in one packet.
pub const PARTIAL: usize = 30000;

/// The largest response and request that are sent.
pub const MAX_RESPONSE: usize = 52_428_800;

pub const MAX_REQUEST: usize = 65535;

/// Who feeds the channel.
#[derive(Clone, Copy, PartialEq, Eq, Structural, Debug)]
pub struct Bridge {
    /// The feed is switched on.
    pub enabled: bool,
    /// A plugin feeds the channel itself.
    pub external_active: bool,
}

/// What is to be sent.
#[derive(Clone, Copy, PartialEq, Eq, Structural, Debug)]
pub enum Kind {
    Response,
    Request,
}

/// The fixed key, `CarrotBlender-Fixed-AES256-Key!!`.
pub open spec fn key_bytes() -> Seq<u8> {
    seq![
        67u8, 97, 114, 114, 111, 116, 66, 108, 101, 110, 100, 101, 114, 45, 70, 105,
        120, 101, 100, 45, 65, 69, 83, 50, 53, 54, 45, 75, 101, 121, 33, 33,
    ]
}

/// The fixed initial vector, `CarrotBlenderIV0`.
pub open spec fn iv_bytes() -> Seq<u8> {
    seq![67u8, 97, 114, 114, 111, 116, 66, 108, 101, 110, 100, 101, 114, 73, 86, 48]
}

/// What AES-256 in CBC mode with PKCS#7 padding makes of a message under a key and an initial vector.
pub uninterp spec fn aes_cbc(key: Seq<u8>, iv: Seq<u8>, msg: Seq<u8>) -> Seq<u8>;

/// `encrypt_padded_vec_mut::<Pkcs7>` of `cbc::Encryptor<aes::Aes256>`: the cipher text is named, and is
/// the message padded up to the next multiple of 16 bytes, by 1 byte at least.
#[verifier::external_body]
fn encrypt(key: &[u8; 32], iv: &[u8; 16], msg: &[u8]) -> (r: Vec<u8>)
    requires
        msg@.len() <= 0x4000_0000,
    ensures
        r@ == aes_cbc(key@, iv@, msg@),
        r@.len() == (msg@.len() / 16 + 1) * 16,
{
    cbc::Encryptor::<aes::Aes256>::new(key.into(), iv.into()).encrypt_padded_vec_mut::<Pkcs7>(msg)
}

/// The feed is on, and no plugin feeds the channel.
pub fn new_bridge() -> (r: Bridge)
    ensures
        r == (Bridge { enabled: true, external_active: false }),
{
    Bridge { enabled: true, external_active: false }
}

/// Switch the feed.
pub fn set_enabled(b: &mut Bridge, on: bool)
    ensures
        *final(b) == (Bridge { enabled: on, ..*old(b) }),
{
    b.enabled = on;
}

/// Whether the feed is switched on and exports may run.
pub fn is_enabled(b: &Bridge, p: &Power) -> (r: bool)
    ensures
        r == (b.enabled && allowed(*p, Subsystem::Export)),
{
    b.enabled && crate::runtime::active(p, Subsystem::Export)
}

/// A plugin took the channel over, or gave it back.
pub fn set_external_active(b: &mut Bridge, on: bool)
    ensures
        *final(b) == (Bridge { external_active: on, ..*old(b) }),
{
    b.external_active = on;
}

/// Whether anything is sent: the feed is on, exports may run, and no plugin feeds the channel.
pub open spec fn live(b: Bridge, p: Power) -> bool {
    b.enabled && allowed(p, Subsystem::Export) && !b.external_active
}

/// Whether anything is sent.
fn active(b: &Bridge, p: &Power) -> (r: bool)
    ensures
        r == live(*b, *p),
{
    is_enabled(b, p) && !b.external_active
}

/// A response, to be sent; `None` where it is not: nothing is sent now, or it is empty or too large.
pub fn send_response(b: &Bridge, p: &Power, plain: &[u8]) -> (r: Option<(Kind, Vec<u8>)>)
    ensures
        r is Some <==> live(*b, *p) && 0 < plain@.len() <= MAX_RESPONSE,
        r is Some ==> (r->0).0 == Kind::Response && (r->0).1@ == plain@,
{
    if !active(b, p) || plain.len() == 0 || plain.len() > MAX_RESPONSE {
        return None;
    }
    Some((Kind::Response, copied(plain)))
}

/// A request, to be sent; `None` where it is not: nothing is sent now, or it is empty or too large.
pub fn send_request(b: &Bridge, p: &Power, plain: &[u8]) -> (r: Option<(Kind, Vec<u8>)>)
    ensures
        r is Some <==> live(*b, *p) && 0 < plain@.len() <= MAX_REQUEST,
        r is Some ==> (r->0).0 == Kind::Request && (r->0).1@ == plain@,
{
    if !active(b, p) || plain.len() == 0 || plain.len() > MAX_REQUEST {
        return None;
    }
    Some((Kind::Request, copied(plain)))
}

/// The bytes of a slice.
fn copied(s: &[u8]) -> (r: Vec<u8>)
    ensures
        r@ == s@,
{
    let mut out: Vec<u8> = Vec::new();
    put(&mut out, s);
    assert(out@ =~= s@);
    out
}

/// Append the bytes of a slice.
fn put(out: &mut Vec<u8>, s: &[u8])
    ensures
        final(out)@ == old(out)@ + s@,
{
    let ghost before = out@;
    let mut i: usize = 0;
    assert(before + s@.take(0) =~= before);
    while i < s.len()
        invariant
            i <= s@.len(),
            out@ == before + s@.take(i as int),
        decreases s@.len() - i,
    {
        out.push(s[i]);
        assert(before + s@.take(i as int + 1) =~= (before + s@.take(i as int)).push(s@[i as int]));
        i = i + 1;
    }
    assert(s@.take(i as int) =~= s@);
}

/// A packet: its type, the length of what it carries in two bytes, and what it carries.
pub open spec fn packet(kind: u8, body: Seq<u8>) -> Seq<u8> {
    seq![kind, (body.len() / 256) as u8, (body.len() % 256) as u8] + body
}

/// A packet.
fn pack(kind: u8, body: &[u8]) -> (r: Vec<u8>)
    ensures
        r@ == packet(kind, body@),
{
    let mut p: Vec<u8> = Vec::new();
    p.push(kind);
    p.push((body.len() / 256) as u8);
    p.push((body.len() % 256) as u8);
    put(&mut p, body);
    assert(p@ =~= packet(kind, body@));
    p
}

/// The packet of a request.
pub fn send_request_frame(plain: &[u8]) -> (r: Vec<u8>)
    ensures
        r@ == packet(3, plain@),
{
    pack(3, plain)
}

/// Where part `k` of `n` starts.
pub open spec fn part_start(len: nat, n: nat, k: nat) -> int
    decreases k,
{
    if k == 0 {
        0
    } else {
        part_start(len, n, (k - 1) as nat) + part_size(len, n, (k - 1) as nat)
    }
}

/// The size of part `k` of `n`: an even share, the first parts taking one of what is left over each.
pub open spec fn part_size(len: nat, n: nat, k: nat) -> int {
    len as int / n as int + (if k < len as int % n as int {
        1int
    } else {
        0int
    })
}

/// Part `k` of `n`.
pub open spec fn part(s: Seq<u8>, n: nat, k: nat) -> Seq<u8> {
    s.subrange(part_start(s.len(), n, k), part_start(s.len(), n, k + 1))
}

/// The parts that a row of bytes is split into.
pub open spec fn parts(s: Seq<u8>, n: nat) -> Seq<Seq<u8>> {
    if n == 0 {
        seq![s]
    } else {
        Seq::new(n, |k: int| part(s, n, k as nat))
    }
}

/// What a row of slices holds.
pub open spec fn slices(s: Seq<&[u8]>) -> Seq<Seq<u8>> {
    s.map_values(|x: &[u8]| x@)
}

/// Where a part starts, in closed form.
proof fn lemma_part_start(len: nat, n: nat, k: nat)
    requires
        0 < n,
        k <= n,
    ensures
        part_start(len, n, k) == k * (len as int / n as int) + (if k < len as int % n as int {
            k as int
        } else {
            len as int % n as int
        }),
        0 <= part_start(len, n, k) <= len,
        k == n ==> part_start(len, n, k) == len,
    decreases k,
{
    let b = len as int / n as int;
    let m = len as int % n as int;
    if k > 0 {
        lemma_part_start(len, n, (k - 1) as nat);
        assert(k * b == (k - 1) * b + b) by (nonlinear_arith);
    }
    vstd::arithmetic::div_mod::lemma_fundamental_div_mod(len as int, n as int);
    vstd::arithmetic::div_mod::lemma_mod_bound(len as int, n as int);
    vstd::arithmetic::div_mod::lemma_div_pos_is_pos(len as int, n as int);
    assert(k * b <= n * b) by (nonlinear_arith)
        requires
            k <= n,
            b >= 0,
    ;
    assert(0 <= k * b) by (nonlinear_arith)
        requires
            k >= 0,
            b >= 0,
    ;
    assert(n * b + m == len);
}

/// Split a row of bytes into parts of about the same size.
pub fn split<'a>(slice: &'a [u8], n: usize) -> (r: Vec<&'a [u8]>)
    ensures
        slices(r@) == parts(slice@, n as nat),
{
    let mut out: Vec<&'a [u8]> = Vec::new();
    if n == 0 {
        out.push(slice);
        assert(slices(out@) =~= parts(slice@, 0));
        return out;
    }
    let len: usize = slice.len();
    let base: usize = len / n;
    let rem: usize = len % n;
    let mut i: usize = 0;
    let mut k: usize = 0;
    while k < n
        invariant
            0 < n,
            k <= n,
            len == slice@.len(),
            base == slice@.len() as int / n as int,
            rem == slice@.len() as int % n as int,
            i == part_start(slice@.len(), n as nat, k as nat),
            i <= slice@.len(),
            out@.len() == k,
            forall|j: int|
                0 <= j < k ==> (#[trigger] out@[j])@ == part(slice@, n as nat, j as nat),
        decreases n - k,
    {
        proof {
            lemma_part_start(slice@.len(), n as nat, (k + 1) as nat);
        }
        let extra: usize = if k < rem {
            1
        } else {
            0
        };
        assert(i + base + extra == part_start(slice@.len(), n as nat, (k + 1) as nat));
        let sz: usize = base + extra;
        out.push(slice_subrange(slice, i, i + sz));
        i = i + sz;
        k = k + 1;
    }
    assert(slices(out@) =~= parts(slice@, n as nat));
    out
}

/// How many packets a large body is sent in.
pub open spec fn part_count(len: nat) -> nat {
    len / PARTIAL as nat + 1
}

/// The packets of an encrypted body.
pub open spec fn body_packets(ct: Seq<u8>) -> Seq<Seq<u8>> {
    if ct.len() > PARTIAL {
        let n = part_count(ct.len());
        seq![seq![4u8, n as u8]] + Seq::new(n, |k: int| packet(5, part(ct, n, k as nat)))
    } else {
        seq![packet(0, ct)]
    }
}

/// The packets of a response: the body, then the key, then the initial vector.
pub open spec fn response_packets(plain: Seq<u8>) -> Seq<Seq<u8>> {
    body_packets(aes_cbc(key_bytes(), iv_bytes(), seq![0u8, 0, 0, 0] + plain)) + seq![
        packet(1, key_bytes()),
        packet(2, iv_bytes()),
    ]
}

/// What a row of packets holds.
pub open spec fn packet_views(s: Seq<Vec<u8>>) -> Seq<Seq<u8>> {
    s.map_values(|x: Vec<u8>| x@)
}

/// The packets of an encrypted body.
pub fn frame_body(ct: &[u8]) -> (r: Vec<Vec<u8>>)
    ensures
        packet_views(r@) == body_packets(ct@),
{
    let mut out: Vec<Vec<u8>> = Vec::new();
    if ct.len() > PARTIAL {
        let num: usize = ct.len() / PARTIAL + 1;
        let ghost n = num as nat;
        assert(n == part_count(ct@.len()));
        let mut head: Vec<u8> = Vec::new();
        head.push(4);
        head.push(num as u8);
        assert(head@ =~= seq![4u8, n as u8]);
        out.push(head);
        let chunks: Vec<&[u8]> = split(ct, num);
        assert(chunks@.len() == slices(chunks@).len());
        let ghost all = Seq::new(n, |k: int| packet(5, part(ct@, n, k as nat)));
        let mut k: usize = 0;
        assert(packet_views(out@) =~= seq![seq![4u8, n as u8]] + all.take(0));
        while k < chunks.len()
            invariant
                k <= chunks@.len(),
                chunks@.len() == n,
                slices(chunks@) == parts(ct@, n),
                n > 0,
                all == Seq::new(n, |k: int| packet(5, part(ct@, n, k as nat))),
                packet_views(out@) == seq![seq![4u8, n as u8]] + all.take(k as int),
            decreases chunks@.len() - k,
        {
            assert(slices(chunks@)[k as int] == chunks@[k as int]@);
            assert(chunks@[k as int]@ == part(ct@, n, k as nat));
            let ghost before = out@;
            let p: Vec<u8> = pack(5, chunks[k]);
            let ghost said = p@;
            out.push(p);
            assert(packet_views(out@) =~= packet_views(before).push(said));
            assert(all.take(k as int + 1) =~= all.take(k as int).push(said));
            assert(seq![seq![4u8, n as u8]] + all.take(k as int + 1) =~= (seq![seq![4u8, n as u8]]
                + all.take(k as int)).push(said));
            k = k + 1;
        }
        assert(all.take(k as int) =~= all);
    } else {
        out.push(pack(0, ct));
        assert(packet_views(out@) =~= seq![packet(0, ct@)]);
    }
    out
}

/// The packets of a response.
pub fn forward(plain: &[u8]) -> (r: Vec<Vec<u8>>)
    requires
        plain@.len() <= MAX_RESPONSE,
    ensures
        packet_views(r@) == response_packets(plain@),
{
    let key: [u8; 32] = [
        67, 97, 114, 114, 111, 116, 66, 108, 101, 110, 100, 101, 114, 45, 70, 105, 120, 101, 100,
        45, 65, 69, 83, 50, 53, 54, 45, 75, 101, 121, 33, 33,
    ];
    let iv: [u8; 16] = [67, 97, 114, 114, 111, 116, 66, 108, 101, 110, 100, 101, 114, 73, 86, 48];
    assert(key@ =~= key_bytes());
    assert(iv@ =~= iv_bytes());
    let mut combined: Vec<u8> = Vec::new();
    combined.push(0);
    combined.push(0);
    combined.push(0);
    combined.push(0);
    assert(combined@ =~= seq![0u8, 0, 0, 0]);
    put(&mut combined, plain);
    let ct: Vec<u8> = encrypt(&key, &iv, combined.as_slice());
    let mut out: Vec<Vec<u8>> = frame_body(ct.as_slice());
    let ghost body = out@;
    let k: Vec<u8> = pack(1, key.as_slice());
    let v: Vec<u8> = pack(2, iv.as_slice());
    let ghost said = seq![k@, v@];
    out.push(k);
    out.push(v);
    assert(packet_views(out@) =~= packet_views(body) + said);
    assert(said =~= seq![packet(1, key_bytes()), packet(2, iv_bytes())]);
    out
}

/// A packet of the companion feed tells how much it carries, and carries it unchanged.
pub proof fn lemma_packet(kind: u8, body: Seq<u8>)
    requires
        body.len() <= 65535,
    ensures
        packet(kind, body).len() == 3 + body.len(),
        packet(kind, body)[0] == kind,
        packet(kind, body)[1] * 256 + packet(kind, body)[2] == body.len(),
        packet(kind, body).skip(3) == body,
{
    assert(packet(kind, body).skip(3) =~= body);
}

/// Rows of bytes one behind the other.
pub open spec fn joined(s: Seq<Seq<u8>>) -> Seq<u8>
    decreases s.len(),
{
    if s.len() == 0 {
        Seq::empty()
    } else {
        joined(s.drop_last()) + s.last()
    }
}

/// Splitting loses nothing: the parts, one behind the other, are what was split, and their sizes
/// differ by one at most.
pub proof fn lemma_split(s: Seq<u8>, n: nat)
    requires
        n > 0,
    ensures
        parts(s, n).len() == n,
        joined(parts(s, n)) == s,
        forall|k: int|
            0 <= k < n ==> s.len() / n <= (#[trigger] parts(s, n)[k]).len() <= s.len() / n + 1,
{
    lemma_joined(s, n, n);
    assert(parts(s, n).take(n as int) =~= parts(s, n));
    lemma_part_start(s.len(), n, n);
    assert(s.subrange(0, s.len() as int) =~= s);
    assert forall|k: int| 0 <= k < n implies s.len() / n <= (#[trigger] parts(s, n)[k]).len()
        <= s.len() / n + 1 by {
        lemma_part_start(s.len(), n, k as nat);
        lemma_part_start(s.len(), n, (k + 1) as nat);
    }
}

/// The first `k` parts, one behind the other.
proof fn lemma_joined(s: Seq<u8>, n: nat, k: nat)
    requires
        0 < n,
        k <= n,
    ensures
        joined(parts(s, n).take(k as int)) == s.subrange(0, part_start(s.len(), n, k)),
    decreases k,
{
    let all = parts(s, n);
    lemma_part_start(s.len(), n, k);
    if k == 0 {
        assert(all.take(0) =~= Seq::empty());
        assert(s.subrange(0, 0) =~= Seq::empty());
    } else {
        let j = (k - 1) as nat;
        lemma_joined(s, n, j);
        lemma_part_start(s.len(), n, j);
        assert(all.take(k as int).drop_last() =~= all.take(j as int));
        assert(all.take(k as int).last() == part(s, n, j));
        assert(s.subrange(0, part_start(s.len(), n, j)) + part(s, n, j) =~= s.subrange(
            0,
            part_start(s.len(), n, k),
        ));
    }
}

/// Every packet of a body fits the two bytes that tell its length, and what the packets carry, one
/// behind the other, is the body.
pub proof fn lemma_body(ct: Seq<u8>)
    ensures
        ct.len() <= PARTIAL ==> body_packets(ct) == seq![packet(0, ct)],
        ct.len() > PARTIAL ==> {
            let n = part_count(ct.len());
            &&& body_packets(ct).len() == n + 1
            &&& joined(parts(ct, n)) == ct
            &&& forall|k: int|
                0 <= k < n ==> (#[trigger] parts(ct, n)[k]).len() <= PARTIAL && body_packets(ct)[k
                    + 1] == packet(5, parts(ct, n)[k])
        },
{
    if ct.len() > PARTIAL {
        let n = part_count(ct.len());
        lemma_split(ct, n);
        assert forall|k: int| 0 <= k < n implies (#[trigger] parts(ct, n)[k]).len() <= PARTIAL
            && body_packets(ct)[k + 1] == packet(5, parts(ct, n)[k]) by {
            assert(ct.len() / n < PARTIAL) by (nonlinear_arith)
                requires
                    n == ct.len() / (PARTIAL as nat) + 1,
                    PARTIAL == 30000,
            ;
        }
    }
}

/// With the feed off, exports suspended, or a plugin on the channel, nothing is sent.
pub proof fn lemma_quiet(b: Bridge, p: Power)
    requires
        !b.enabled || b.external_active || (!p.overseer_on && !p.keep_export),
    ensures
        !live(b, p),
{
}

/// The key and the vector that a companion expects: 32 and 16 bytes of text.
pub proof fn lemma_fixed_key()
    ensures
        key_bytes().len() == 32,
        iv_bytes().len() == 16,
        key_bytes() == "CarrotBlender-Fixed-AES256-Key!!"@.map_values(|c: char| c as u8),
        iv_bytes() == "CarrotBlenderIV0"@.map_values(|c: char| c as u8),
{
    reveal_strlit("CarrotBlender-Fixed-AES256-Key!!");
    reveal_strlit("CarrotBlenderIV0");
    assert(key_bytes() =~= "CarrotBlender-Fixed-AES256-Key!!"@.map_values(|c: char| c as u8));
    assert(iv_bytes() =~= "CarrotBlenderIV0"@.map_values(|c: char| c as u8));
}

/// A response goes out as its cipher text, behind four bytes of zero, then the key and then the vector,
/// each under a number of its own.
pub proof fn lemma_response(plain: Seq<u8>)
    ensures
        ({
            let ct = aes_cbc(key_bytes(), iv_bytes(), seq![0u8, 0, 0, 0] + plain);
            let p = response_packets(plain);
            let n = body_packets(ct).len();
            &&& p.len() == n + 2
            &&& p.take(n as int) == body_packets(ct)
            &&& p[n as int] == seq![1u8, 0, 32] + key_bytes()
            &&& p[n + 1int] == seq![2u8, 0, 16] + iv_bytes()
            &&& ct.len() <= 30000 ==> n == 1 && p[0] == packet(0, ct)
            &&& 30000 < ct.len() < 7_600_000 ==> n == ct.len() / 30000 + 2 && p[0] == seq![
                4u8,
                (ct.len() / 30000 + 1) as u8,
            ]
        }),
{
    let ct = aes_cbc(key_bytes(), iv_bytes(), seq![0u8, 0, 0, 0] + plain);
    let p = response_packets(plain);
    assert(p.take(body_packets(ct).len() as int) =~= body_packets(ct));
    lemma_body(ct);
    assert(packet(1, key_bytes()) =~= seq![1u8, 0, 32] + key_bytes());
    assert(packet(2, iv_bytes()) =~= seq![2u8, 0, 16] + iv_bytes());
}

/// The bridge is live while it is on, exporting is allowed, and no other companion serves.
pub proof fn lemma_live(b: Bridge, p: Power)
    ensures
        live(b, p) <==> b.enabled && !b.external_active && (p.overseer_on || p.keep_export),
{
}

} // verus!
