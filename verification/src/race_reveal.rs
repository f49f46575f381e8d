//! The result of a race, decoded from the response before the animation plays, and the history of
//! the player's results.
//!
//! The response carries the outcome as text: base64 of a gzip stream whose contents are a result
//! table of fixed layout. Finish times are kept as the bit patterns of the single-precision numbers
//! in the table.

use base64::Engine;
use std::io::Read;
use vstd::prelude::*;

use crate::msgpack::{decode as decode_document, find_int, find_list, find_text, int_or_zero, Node, Tree};
use crate::msgpack::{first_int_of, first_list_of, first_text_of, hits, msgpack_tree, or_zero, trees};
use crate::order::{insert_by_key, lemma_insert_at, lemma_sort, sort_by_key, with_key};
use crate::text::dec;
use crate::text::show_i64;

verus! {

/// The most horses that a plausible field has.
pub const MAX_FIELD: i64 = 30;

/// How many races the history keeps.
pub const MAX_HISTORY: usize = 2000;

/// How long, in milliseconds, an identical result counts as the same race sent again.
pub const DEDUP_WINDOW_MS: u64 = 120_000;

/// What the `base64` crate decodes a text to with the standard alphabet and padding; `None` where
/// it reports an error.
pub uninterp spec fn base64_bytes(text: Seq<char>) -> Option<Seq<u8>>;

/// What the `flate2` crate inflates a gzip stream to; `None` where it reports an error.
pub uninterp spec fn gunzip_bytes(gz: Seq<u8>) -> Option<Seq<u8>>;

/// `base64::engine::general_purpose::STANDARD.decode`: the decoded bytes, or `None` for any of its
/// errors. Which bytes a text encodes is left to the name `base64_bytes`.
#[verifier::external_body]
fn base64_decode(text: &str) -> (r: Option<Vec<u8>>)
    ensures
        (match r {
            Some(v) => Some(v@),
            None => None,
        }) == base64_bytes(text@),
{
    base64::engine::general_purpose::STANDARD.decode(text.as_bytes()).ok()
}

/// `flate2::read::GzDecoder` read to its end: the inflated bytes, or `None` for any of its errors.
/// Which bytes a stream holds is left to the name `gunzip_bytes`.
#[verifier::external_body]
fn gunzip(gz: &Vec<u8>) -> (r: Option<Vec<u8>>)
    ensures
        (match r {
            Some(v) => Some(v@),
            None => None,
        }) == gunzip_bytes(gz@),
{
    let mut blob: Vec<u8> = Vec::new();
    flate2::read::GzDecoder::new(&gz[..]).read_to_end(&mut blob).ok()?;
    Some(blob)
}

/// The unsigned number in the four bytes from `off`, least significant first.
pub open spec fn le_u32(b: Seq<u8>, off: int) -> int {
    b[off] + 0x100 * b[off + 1] + 0x1_0000 * b[off + 2] + 0x100_0000 * b[off + 3]
}

/// The four bytes from `off` as an unsigned number, where they exist.
pub open spec fn bits_at(b: Seq<u8>, off: int) -> Option<int> {
    if 0 <= off && off + 4 <= b.len() {
        Some(le_u32(b, off))
    } else {
        None
    }
}

/// The four bytes from `off` as a signed number in two's complement, where they exist.
pub open spec fn i32_at(b: Seq<u8>, off: int) -> Option<int> {
    match bits_at(b, off) {
        Some(u) => Some(
            if u >= 0x8000_0000 {
                u - 0x1_0000_0000
            } else {
                u
            },
        ),
        None => None,
    }
}

/// The length of `count` records of `size` bytes; a negative number describes no length, unless the
/// other one is 0.
pub open spec fn span(count: int, size: int) -> Option<int> {
    if count == 0 || size == 0 {
        Some(0)
    } else if count < 0 || size < 0 {
        None
    } else {
        Some(count * size)
    }
}

/// Where the result table of a blob is.
#[derive(Clone, Copy, PartialEq, Eq, Structural, Debug)]
pub struct Layout {
    pub horses: i64,
    pub record_size: i64,
    /// The offset of the first record.
    pub off: u64,
}

/// A header: its length, then that many bytes, then four numbers of which the second is the number
/// of horses and the fourth the size of a result record.
pub open spec fn header_of(b: Seq<u8>) -> Option<(int, int, int)> {
    match i32_at(b, 0) {
        Some(len) if len >= 0 => {
            let off = 4 + len;
            match (i32_at(b, off + 4), i32_at(b, off + 12)) {
                (Some(horses), Some(size)) => Some((horses, size, off + 16)),
                _ => None,
            }
        },
        _ => None,
    }
}

/// The offset behind a padding that starts at `off`: its length, then that many bytes.
pub open spec fn after_padding(b: Seq<u8>, off: int) -> Option<int> {
    match i32_at(b, off) {
        Some(len) if len >= 0 => Some(off + 4 + len),
        _ => None,
    }
}

/// The offset behind the frames that start at `off`: their count, their size, then as many bytes.
pub open spec fn after_frames(b: Seq<u8>, off: int) -> Option<int> {
    match (i32_at(b, off), i32_at(b, off + 4)) {
        (Some(count), Some(size)) => match span(count, size) {
            Some(len) => Some(off + 8 + len),
            None => None,
        },
        _ => None,
    }
}

/// Where the result table is: behind the header, a padding, the frames and another padding. `None`
/// where the blob ends early or the field is implausible.
pub open spec fn layout_of(b: Seq<u8>) -> Option<(int, int, int)> {
    match header_of(b) {
        None => None,
        Some((horses, size, o1)) => match after_padding(b, o1) {
            None => None,
            Some(o2) => match after_frames(b, o2) {
                None => None,
                Some(o3) => match after_padding(b, o3) {
                    None => None,
                    Some(o4) => if 1 <= horses <= MAX_FIELD && size != 0 {
                        Some((horses, size, o4))
                    } else {
                        None
                    },
                },
            },
        },
    }
}

/// One finisher.
#[derive(Clone, Copy, PartialEq, Eq, Structural, Debug)]
pub struct Finisher {
    /// Finish order, from 1.
    pub place: i64,
    /// The displayed finish time in seconds, as single-precision bits.
    pub time: u32,
    /// The precise finish time in seconds, as single-precision bits.
    pub raw: u32,
    pub is_player: bool,
}

/// A decoded result.
pub struct Decoded {
    /// In finish order.
    pub order: Vec<Finisher>,
    pub field_size: i64,
    pub player_place: Option<i64>,
    /// The player's displayed finish time, as single-precision bits.
    pub player_time: Option<u32>,
    pub label: String,
}

/// The account whose horse started from gate `gate`: that of the last horse listed there, 0 where
/// none is.
pub open spec fn gate_viewer(horses: Seq<Tree>, gate: int) -> i64
    decreases horses.len(),
{
    if horses.len() == 0 {
        0
    } else if horses.last().int_or_zero("frame_order"@) == gate {
        horses.last().int_or_zero("viewer_id"@)
    } else {
        gate_viewer(horses.drop_last(), gate)
    }
}

/// The account of the first horse that has a gate and an account; 0 where none has.
pub open spec fn lone_viewer(horses: Seq<Tree>) -> i64
    decreases horses.len(),
{
    if horses.len() == 0 {
        0
    } else if lone_viewer(horses.drop_last()) != 0 {
        lone_viewer(horses.drop_last())
    } else if horses.last().int_or_zero("frame_order"@) >= 1 {
        horses.last().int_or_zero("viewer_id"@)
    } else {
        0
    }
}

/// The player's account: the first one mentioned, or else that of the lone horse that has one.
pub open spec fn player_viewer(t: Tree, horses: Seq<Tree>) -> i64 {
    let own = or_zero(first_int_of(hits(t, "viewer_id"@)));
    if own != 0 {
        own
    } else {
        lone_viewer(horses)
    }
}

/// The result of the horse that started from gate `i + 1`.
pub open spec fn finisher_at(
    b: Seq<u8>,
    size: int,
    off: int,
    i: int,
    horses: Seq<Tree>,
    player: i64,
) -> Option<Finisher> {
    match span(i, size) {
        None => None,
        Some(skip) => {
            let base = off + skip;
            match (i32_at(b, base), bits_at(b, base + 4), bits_at(b, base + 27)) {
                (Some(place), Some(time), Some(raw)) => {
                    let vid = gate_viewer(horses, i + 1);
                    Some(
                        Finisher {
                            place: (place + 1) as i64,
                            time: time as u32,
                            raw: raw as u32,
                            is_player: vid != 0 && vid == player,
                        },
                    )
                },
                _ => None,
            }
        },
    }
}

/// The results of the first `n` gates, if all of them can be read.
pub open spec fn finishers(
    b: Seq<u8>,
    size: int,
    off: int,
    n: nat,
    horses: Seq<Tree>,
    player: i64,
) -> Option<Seq<Finisher>>
    decreases n,
{
    if n == 0 {
        Some(Seq::empty())
    } else {
        match (
            finishers(b, size, off, (n - 1) as nat, horses, player),
            finisher_at(b, size, off, n - 1, horses, player),
        ) {
            (Some(s), Some(f)) => Some(s.push(f)),
            _ => None,
        }
    }
}

/// The order of a result: ascending places.
pub open spec fn by_place() -> spec_fn(Finisher) -> int {
    |f: Finisher| f.place as int
}

/// The last finisher that is the player.
pub open spec fn player_row(order: Seq<Finisher>) -> Option<Finisher>
    decreases order.len(),
{
    if order.len() == 0 {
        None
    } else if order.last().is_player {
        Some(order.last())
    } else {
        player_row(order.drop_last())
    }
}

/// The ending of an English ordinal number.
pub open spec fn ordinal_suffix(n: int) -> Seq<char> {
    if n < 0 || 11 <= n % 100 <= 13 {
        "th"@
    } else if n % 10 == 1 {
        "st"@
    } else if n % 10 == 2 {
        "nd"@
    } else if n % 10 == 3 {
        "rd"@
    } else {
        "th"@
    }
}

/// An English ordinal number.
pub open spec fn ordinal_spec(n: int) -> Seq<char> {
    dec(n) + ordinal_suffix(n)
}

/// The headline of a result.
pub open spec fn label_of(player: Option<Finisher>, field_size: int) -> Seq<char> {
    match player {
        Some(f) => ordinal_spec(f.place as int) + " of "@ + dec(field_size),
        None => "—"@,
    }
}

/// The finishers of a result table, one for each gate, in the order of the gates.
pub open spec fn gates_of(t: Tree, b: Seq<u8>) -> Option<Seq<Finisher>> {
    match (first_list_of(hits(t, "race_horse_data"@)), layout_of(b)) {
        (Some(horses), Some((n, size, off))) => finishers(
            b,
            size,
            off,
            n as nat,
            horses,
            player_viewer(t, horses),
        ),
        _ => None,
    }
}

/// The finishers of a result table, in finish order.
pub open spec fn order_of(t: Tree, b: Seq<u8>) -> Option<Seq<Finisher>> {
    match gates_of(t, b) {
        Some(s) => Some(sort_by_key(s, by_place())),
        None => None,
    }
}

impl Decoded {
    /// Whether this is the result with the finishers `order`.
    pub open spec fn shows(self, order: Seq<Finisher>) -> bool {
        &&& self.order@ == order
        &&& self.field_size == order.len()
        &&& self.player_place == (match player_row(order) {
            Some(f) => Some(f.place),
            None => None,
        })
        &&& self.player_time == (match player_row(order) {
            Some(f) => Some(f.time),
            None => None,
        })
        &&& self.label@ == label_of(player_row(order), order.len() as int)
    }
}

/// The blob that a response carries: its text, decoded and inflated. `None` where there is none,
/// or where it is not a gzip stream.
pub open spec fn blob_of(t: Tree) -> Option<Seq<u8>> {
    match first_text_of(hits(t, "race_scenario"@)) {
        None => None,
        Some(text) => match base64_bytes(text) {
            None => None,
            Some(gz) => if gz.len() >= 2 && gz[0] == 0x1f && gz[1] == 0x8b {
                gunzip_bytes(gz)
            } else {
                None
            },
        },
    }
}

/// An English ordinal number.
pub fn ordinal(n: i64) -> (r: String)
    ensures
        r@ == ordinal_spec(n as int),
{
    let suffix: &str = if n < 0 {
        "th"
    } else {
        let h: i64 = n % 100;
        let d: i64 = n % 10;
        if 11 <= h && h <= 13 {
            "th"
        } else if d == 1 {
            "st"
        } else if d == 2 {
            "nd"
        } else if d == 3 {
            "rd"
        } else {
            "th"
        }
    };
    let mut s = show_i64(n);
    s.append(suffix);
    s
}

/// The four bytes from `off` as an unsigned number.
fn rd_bits(b: &Vec<u8>, off: u64) -> (r: Option<u32>)
    ensures
        (match r {
            Some(u) => Some(u as int),
            None => None,
        }) == bits_at(b@, off as int),
{
    let len: u64 = b.len() as u64;
    if len < 4 || off > len - 4 {
        return None;
    }
    let i: usize = off as usize;
    Some(
        b[i] as u32 + 0x100 * (b[i + 1] as u32) + 0x1_0000 * (b[i + 2] as u32) + 0x100_0000 * (
        b[i + 3] as u32),
    )
}

/// The four bytes from `off` as a signed number.
fn rd_i32(b: &Vec<u8>, off: u64) -> (r: Option<i64>)
    ensures
        (match r {
            Some(v) => Some(v as int),
            None => None,
        }) == i32_at(b@, off as int),
        r matches Some(v) ==> -0x8000_0000 <= v < 0x8000_0000 && off + 4 <= b.len(),
{
    match rd_bits(b, off) {
        None => None,
        Some(u) => if u >= 0x8000_0000 {
            Some(u as i64 - 0x1_0000_0000)
        } else {
            Some(u as i64)
        },
    }
}

/// The length of `count` records of `size` bytes.
fn span_of(count: i64, size: i64) -> (r: Option<u64>)
    requires
        -0x8000_0000 <= count < 0x8000_0000,
        -0x8000_0000 <= size < 0x8000_0000,
    ensures
        (match r {
            Some(v) => Some(v as int),
            None => None,
        }) == span(count as int, size as int),
        r matches Some(v) ==> v <= 0x4000_0000_0000_0000,
{
    if count == 0 || size == 0 {
        Some(0)
    } else if count < 0 || size < 0 {
        None
    } else {
        assert(0 <= count * size <= 0x4000_0000_0000_0000) by (nonlinear_arith)
            requires
                0 <= count < 0x8000_0000,
                0 <= size < 0x8000_0000,
        ;
        Some((count as u64) * (size as u64))
    }
}

/// The offset behind a padding.
fn skip_padding(b: &Vec<u8>, off: u64) -> (r: Option<u64>)
    requires
        off <= 0x6000_0000_0000_0000,
    ensures
        (match r {
            Some(v) => Some(v as int),
            None => None,
        }) == after_padding(b@, off as int),
        r matches Some(v) ==> off <= b.len() && v <= off + 0x1_0000_0000,
{
    match rd_i32(b, off) {
        Some(len) => if len >= 0 {
            Some(off + 4 + len as u64)
        } else {
            None
        },
        None => None,
    }
}

/// Where the result table is.
fn read_layout(b: &Vec<u8>) -> (r: Option<Layout>)
    ensures
        (match r {
            Some(l) => Some((l.horses as int, l.record_size as int, l.off as int)),
            None => None,
        }) == layout_of(b@),
        r matches Some(l) ==> {
            &&& 1 <= l.horses <= MAX_FIELD
            &&& -0x8000_0000 <= l.record_size < 0x8000_0000
            &&& l.off <= 0x6000_0000_0000_0000
        },
{
    let len: i64 = match rd_i32(b, 0) {
        Some(v) => v,
        None => {
            return None;
        },
    };
    if len < 0 {
        return None;
    }
    let o1: u64 = 4 + len as u64;
    let horses: i64 = match rd_i32(b, o1 + 4) {
        Some(v) => v,
        None => {
            return None;
        },
    };
    let size: i64 = match rd_i32(b, o1 + 12) {
        Some(v) => v,
        None => {
            return None;
        },
    };
    let o2: u64 = match skip_padding(b, o1 + 16) {
        Some(v) => v,
        None => {
            return None;
        },
    };
    let count: i64 = match rd_i32(b, o2) {
        Some(v) => v,
        None => {
            return None;
        },
    };
    let frame: i64 = match rd_i32(b, o2 + 4) {
        Some(v) => v,
        None => {
            return None;
        },
    };
    let frames: u64 = match span_of(count, frame) {
        Some(v) => v,
        None => {
            return None;
        },
    };
    let o3: u64 = o2 + 8 + frames;
    let o4: u64 = match skip_padding(b, o3) {
        Some(v) => v,
        None => {
            return None;
        },
    };
    if 1 <= horses && horses <= MAX_FIELD && size != 0 {
        Some(Layout { horses, record_size: size, off: o4 })
    } else {
        None
    }
}

/// The account whose horse started from a gate.
fn read_gate_viewer(horses: &Vec<Node>, gate: i64) -> (r: i64)
    ensures
        r == gate_viewer(trees(horses@), gate as int),
{
    let ghost all = trees(horses@);
    let mut i: usize = horses.len();
    assert(all.take(i as int) =~= all);
    while i > 0
        invariant
            i <= horses.len(),
            all == trees(horses@),
            gate_viewer(all, gate as int) == gate_viewer(all.take(i as int), gate as int),
        decreases i,
    {
        i = i - 1;
        assert(all.take(i as int + 1).drop_last() =~= all.take(i as int));
        assert(all.take(i as int + 1).last() == horses@[i as int]@);
        if int_or_zero(&horses[i], "frame_order") == gate {
            return int_or_zero(&horses[i], "viewer_id");
        }
    }
    0
}

/// The account of the first horse that has a gate and an account.
fn read_lone_viewer(horses: &Vec<Node>) -> (r: i64)
    ensures
        r == lone_viewer(trees(horses@)),
{
    let ghost all = trees(horses@);
    let mut found: i64 = 0;
    let mut i: usize = 0;
    assert(lone_viewer(all.take(0)) == 0);
    while i < horses.len()
        invariant
            i <= horses.len(),
            all == trees(horses@),
            found == lone_viewer(all.take(i as int)),
        decreases horses.len() - i,
    {
        assert(all.take(i as int + 1).drop_last() =~= all.take(i as int));
        assert(all.take(i as int + 1).last() == horses@[i as int]@);
        if found == 0 && int_or_zero(&horses[i], "frame_order") >= 1 {
            found = int_or_zero(&horses[i], "viewer_id");
        }
        i = i + 1;
    }
    assert(all.take(i as int) =~= all);
    found
}

/// The result of the horse that started from gate `i + 1`.
fn read_finisher(b: &Vec<u8>, l: Layout, i: i64, horses: &Vec<Node>, player: i64) -> (r: Option<
    Finisher,
>)
    requires
        0 <= i < MAX_FIELD,
        -0x8000_0000 <= l.record_size < 0x8000_0000,
        l.off <= 0x6000_0000_0000_0000,
    ensures
        r == finisher_at(
            b@,
            l.record_size as int,
            l.off as int,
            i as int,
            trees(horses@),
            player,
        ),
{
    let skip: u64 = match span_of(i, l.record_size) {
        Some(v) => v,
        None => {
            return None;
        },
    };
    let base: u64 = l.off + skip;
    let place: i64 = match rd_i32(b, base) {
        Some(v) => v,
        None => {
            return None;
        },
    };
    let time: u32 = match rd_bits(b, base + 4) {
        Some(v) => v,
        None => {
            return None;
        },
    };
    let raw: u32 = match rd_bits(b, base + 27) {
        Some(v) => v,
        None => {
            return None;
        },
    };
    let vid: i64 = read_gate_viewer(horses, i + 1);
    Some(Finisher { place: place + 1, time, raw, is_player: vid != 0 && vid == player })
}

/// Put a finisher behind those that are not behind it.
fn place_finisher(out: &mut Vec<Finisher>, f: Finisher)
    ensures
        final(out)@ == insert_by_key(old(out)@, f, by_place()),
{
    let ghost before = out@;
    let mut k: usize = out.len();
    while k > 0 && out[k - 1].place > f.place
        invariant
            k <= out.len(),
            out@ == before,
            forall|i: int| k <= i < out.len() ==> by_place()(#[trigger] out@[i]) > by_place()(f),
        decreases k,
    {
        k = k - 1;
    }
    proof {
        lemma_insert_at(before, f, by_place(), k as int);
    }
    out.insert(k, f);
}

/// Once a gate cannot be read, no larger number of gates can.
proof fn lemma_unreadable(
    b: Seq<u8>,
    size: int,
    off: int,
    i: nat,
    n: nat,
    horses: Seq<Tree>,
    player: i64,
)
    requires
        i <= n,
        finishers(b, size, off, i, horses, player) is None,
    ensures
        finishers(b, size, off, n, horses, player) is None,
    decreases n - i,
{
    if i < n {
        lemma_unreadable(b, size, off, i + 1, n, horses, player);
    }
}

/// The finishers of a result table, in finish order.
fn read_order(val: &Node, b: &Vec<u8>) -> (r: Option<Vec<Finisher>>)
    ensures
        (match r {
            Some(o) => Some(o@),
            None => None,
        }) == order_of(val@, b@),
{
    let horses: &Vec<Node> = match find_list(val, "race_horse_data") {
        Some(l) => l,
        None => {
            return None;
        },
    };
    let l: Layout = match read_layout(b) {
        Some(l) => l,
        None => {
            return None;
        },
    };
    let own: i64 = match find_int(val, "viewer_id") {
        Some(n) => n,
        None => 0,
    };
    let player: i64 = if own != 0 {
        own
    } else {
        read_lone_viewer(horses)
    };
    let ghost size = l.record_size as int;
    let ghost off = l.off as int;
    let ghost gates = trees(horses@);
    let mut out: Vec<Finisher> = Vec::new();
    let mut i: i64 = 0;
    let ghost mut found: Seq<Finisher> = Seq::empty();
    while i < l.horses
        invariant
            0 <= i <= l.horses <= MAX_FIELD,
            -0x8000_0000 <= l.record_size < 0x8000_0000,
            l.off <= 0x6000_0000_0000_0000,
            size == l.record_size,
            off == l.off,
            gates == trees(horses@),
            first_list_of(hits(val@, "race_horse_data"@)) == Some(gates),
            layout_of(b@) == Some((l.horses as int, size, off)),
            player == player_viewer(val@, gates),
            finishers(b@, size, off, i as nat, gates, player) == Some(found),
            out@ == sort_by_key(found, by_place()),
        decreases l.horses - i,
    {
        match read_finisher(b, l, i, horses, player) {
            None => {
                proof {
                    lemma_unreadable(
                        b@,
                        size,
                        off,
                        (i + 1) as nat,
                        l.horses as nat,
                        gates,
                        player,
                    );
                }
                return None;
            },
            Some(f) => {
                proof {
                    assert(found.push(f).drop_last() =~= found);
                    found = found.push(f);
                }
                place_finisher(&mut out, f);
            },
        }
        i = i + 1;
    }
    proof {
        lemma_sort(found, by_place());
    }
    Some(out)
}

/// The last finisher that is the player.
fn read_player_row(order: &Vec<Finisher>) -> (r: Option<Finisher>)
    ensures
        r == player_row(order@),
{
    let mut i: usize = order.len();
    assert(order@.take(i as int) =~= order@);
    while i > 0
        invariant
            i <= order.len(),
            player_row(order@) == player_row(order@.take(i as int)),
        decreases i,
    {
        i = i - 1;
        assert(order@.take(i as int + 1).drop_last() =~= order@.take(i as int));
        assert(order@.take(i as int + 1).last() == order@[i as int]);
        if order[i].is_player {
            return Some(order[i]);
        }
    }
    None
}

/// A field is as large as its layout says.
proof fn lemma_order_len(t: Tree, b: Seq<u8>)
    ensures
        order_of(t, b) matches Some(o) ==> 1 <= o.len() <= MAX_FIELD,
{
    if let (Some(horses), Some((n, size, off))) = (
        first_list_of(hits(t, "race_horse_data"@)),
        layout_of(b),
    ) {
        lemma_finishers_len(b, size, off, n as nat, horses, player_viewer(t, horses));
        if let Some(s) = finishers(b, size, off, n as nat, horses, player_viewer(t, horses)) {
            lemma_sort(s, by_place());
        }
    }
}

/// As many results are read as gates are asked for.
proof fn lemma_finishers_len(
    b: Seq<u8>,
    size: int,
    off: int,
    n: nat,
    horses: Seq<Tree>,
    player: i64,
)
    ensures
        finishers(b, size, off, n, horses, player) matches Some(s) ==> s.len() == n,
    decreases n,
{
    if n > 0 {
        lemma_finishers_len(b, size, off, (n - 1) as nat, horses, player);
    }
}

/// Read the result of a race off the response and the blob that it carried.
pub fn read_result(val: &Node, b: &Vec<u8>) -> (r: Option<Decoded>)
    ensures
        r is Some == (order_of(val@, b@) is Some),
        r matches Some(d) ==> d.shows(order_of(val@, b@)->0),
{
    match read_order(val, b) {
        None => None,
        Some(order) => {
            proof {
                lemma_order_len(val@, b@);
            }
            let field_size: i64 = order.len() as i64;
            let row = read_player_row(&order);
            let label: String = match row {
                Some(f) => {
                    let mut s = ordinal(f.place);
                    s.append(" of ");
                    s.append(show_i64(field_size).as_str());
                    s
                },
                None => "—".to_owned(),
            };
            let player_place: Option<i64> = match row {
                Some(f) => Some(f.place),
                None => None,
            };
            let player_time: Option<u32> = match row {
                Some(f) => Some(f.time),
                None => None,
            };
            Some(Decoded { order, field_size, player_place, player_time, label })
        },
    }
}

/// The finishers of the race that a payload tells of.
pub open spec fn revealed(bytes: Seq<u8>) -> Option<Seq<Finisher>> {
    match msgpack_tree(bytes) {
        None => None,
        Some(t) => match blob_of(t) {
            None => None,
            Some(b) => order_of(t, b),
        },
    }
}

/// The blob that a response carries.
fn read_blob(val: &Node) -> (r: Option<Vec<u8>>)
    ensures
        (match r {
            Some(b) => Some(b@),
            None => None,
        }) == blob_of(val@),
{
    match find_text(val, "race_scenario") {
        None => None,
        Some(text) => match base64_decode(text.as_str()) {
            None => None,
            Some(gz) => if gz.len() < 2 || gz[0] != 0x1f || gz[1] != 0x8b {
                None
            } else {
                gunzip(&gz)
            },
        },
    }
}

/// Decode the result of a race from a payload. `None` on anything malformed.
pub fn decode(bytes: &[u8]) -> (r: Option<Decoded>)
    ensures
        r is Some == (revealed(bytes@) is Some),
        r matches Some(d) ==> d.shows(revealed(bytes@)->0),
{
    match decode_document(bytes) {
        None => None,
        Some(val) => match read_blob(&val) {
            None => None,
            Some(b) => read_result(&val, &b),
        },
    }
}

/// What a decoded race leads to: the result to show, and the player's own result, if the player
/// ran, for the history.
pub struct Reveal {
    pub shown: Decoded,
    /// Place, field size, and displayed time as single-precision bits.
    pub own: Option<(i64, i64, u32)>,
}

/// Decode a payload into what is shown of the race and what is recorded of it. Nothing on
/// malformed input.
pub fn decode_and_publish(bytes: &[u8]) -> (r: Option<Reveal>)
    ensures
        r is Some == (revealed(bytes@) is Some),
        r matches Some(v) ==> {
            let order = revealed(bytes@)->0;
            &&& v.shown.shows(order)
            &&& v.own == (match player_row(order) {
                Some(f) => Some((f.place, order.len() as i64, f.time)),
                None => None,
            })
        },
{
    match decode(bytes) {
        None => None,
        Some(d) => {
            let own: Option<(i64, i64, u32)> = match (d.player_place, d.player_time) {
                (Some(place), Some(time)) => Some((place, d.field_size, time)),
                _ => None,
            };
            Some(Reveal { shown: d, own })
        },
    }
}

/// One finished race from the player's perspective.
pub struct RaceRecord {
    /// When it was decoded, in milliseconds since the epoch.
    pub epoch_ms: u64,
    /// Empty when the header was not captured.
    pub name: String,
    /// 100, 200 and 300 for the three grades, 400 for open races, anything else unknown.
    pub grade: i64,
    /// Metres; 0 when unknown.
    pub distance: i64,
    pub place: i64,
    pub field: i64,
    /// The displayed finish time in seconds, as double-precision bits.
    pub time: u64,
}

/// Whether a result repeats the last one recorded: same place and field, about the same time, and
/// soon after.
pub open spec fn repeats(hist: Seq<RaceRecord>, rec: RaceRecord, same_time: bool) -> bool {
    hist.len() > 0 && hist.last().place == rec.place && hist.last().field == rec.field && same_time
        && rec.epoch_ms - hist.last().epoch_ms < DEDUP_WINDOW_MS
}

/// The last [`MAX_HISTORY`] records.
pub open spec fn newest(hist: Seq<RaceRecord>) -> Seq<RaceRecord> {
    if hist.len() > MAX_HISTORY {
        hist.skip(hist.len() - MAX_HISTORY)
    } else {
        hist
    }
}

/// Append a race to the history, unless it repeats the last one; the oldest records make room.
/// `same_time` says whether the times of `rec` and of the last record are within a twentieth of a
/// second. Returns whether the race was recorded.
pub fn record_race(hist: &mut Vec<RaceRecord>, rec: RaceRecord, same_time: bool) -> (r: bool)
    ensures
        r == !repeats(old(hist)@, rec, same_time),
        final(hist)@ == (if r {
            newest(old(hist)@.push(rec))
        } else {
            old(hist)@
        }),
{
    let n: usize = hist.len();
    if n > 0 {
        let last = &hist[n - 1];
        let near: bool = rec.epoch_ms < last.epoch_ms || rec.epoch_ms - last.epoch_ms
            < DEDUP_WINDOW_MS;
        if last.place == rec.place && last.field == rec.field && same_time && near {
            return false;
        }
    }
    let ghost all = hist@.push(rec);
    hist.push(rec);
    assert(hist@ =~= all.skip(0));
    let ghost mut dropped: int = 0;
    while hist.len() > MAX_HISTORY
        invariant
            0 <= dropped <= all.len(),
            hist@ == all.skip(dropped),
            dropped > 0 ==> hist.len() >= MAX_HISTORY,
        decreases hist.len(),
    {
        let _ = hist.remove(0);
        proof {
            dropped = dropped + 1;
        }
        assert(hist@ =~= all.skip(dropped));
    }
    assert(hist@ =~= newest(all));
    true
}

/// Counts over a history.
#[derive(Clone, Copy, PartialEq, Eq, Structural, Debug)]
pub struct Summary {
    pub total: usize,
    pub wins: usize,
    pub top3: usize,
    pub g1_wins: usize,
    /// The sum of the places.
    pub place_sum: i128,
}

/// How many records satisfy `p`.
pub open spec fn count_of(hist: Seq<RaceRecord>, p: spec_fn(RaceRecord) -> bool) -> nat
    decreases hist.len(),
{
    if hist.len() == 0 {
        0
    } else {
        count_of(hist.drop_last(), p) + if p(hist.last()) {
            1nat
        } else {
            0nat
        }
    }
}

/// The sum of the places.
pub open spec fn places(hist: Seq<RaceRecord>) -> int
    decreases hist.len(),
{
    if hist.len() == 0 {
        0
    } else {
        places(hist.drop_last()) + hist.last().place
    }
}

/// A win.
pub open spec fn won() -> spec_fn(RaceRecord) -> bool {
    |r: RaceRecord| r.place == 1
}

/// A finish among the first three.
pub open spec fn placed() -> spec_fn(RaceRecord) -> bool {
    |r: RaceRecord| 1 <= r.place <= 3
}

/// A win in a first-grade race.
pub open spec fn won_g1() -> spec_fn(RaceRecord) -> bool {
    |r: RaceRecord| r.place == 1 && r.grade == 100
}

impl Summary {
    /// Whether these are the aggregates over a history.
    pub open spec fn sums_up(self, hist: Seq<RaceRecord>) -> bool {
        &&& self.total == hist.len()
        &&& self.wins == count_of(hist, won())
        &&& self.top3 == count_of(hist, placed())
        &&& self.g1_wins == count_of(hist, won_g1())
        &&& self.place_sum == places(hist)
    }
}

/// The aggregates over a history.
pub fn summarize(hist: &Vec<RaceRecord>) -> (r: Summary)
    ensures
        r.sums_up(hist@),
{
    let mut wins: usize = 0;
    let mut top3: usize = 0;
    let mut g1_wins: usize = 0;
    let mut place_sum: i128 = 0;
    let mut i: usize = 0;
    assert(hist@.take(0) =~= Seq::empty());
    while i < hist.len()
        invariant
            i <= hist.len(),
            wins <= i,
            top3 <= i,
            g1_wins <= i,
            wins == count_of(hist@.take(i as int), won()),
            top3 == count_of(hist@.take(i as int), placed()),
            g1_wins == count_of(hist@.take(i as int), won_g1()),
            place_sum == places(hist@.take(i as int)),
            -0x8000_0000_0000_0000 * i <= place_sum <= 0x8000_0000_0000_0000 * i,
        decreases hist.len() - i,
    {
        assert(hist@.take(i as int + 1).drop_last() =~= hist@.take(i as int));
        assert(hist@.take(i as int + 1).last() == hist@[i as int]);
        let rec = &hist[i];
        if rec.place == 1 {
            wins = wins + 1;
            if rec.grade == 100 {
                g1_wins = g1_wins + 1;
            }
        }
        if 1 <= rec.place && rec.place <= 3 {
            top3 = top3 + 1;
        }
        place_sum = place_sum + rec.place as i128;
        i = i + 1;
    }
    assert(hist@.take(i as int) =~= hist@);
    Summary { total: hist.len(), wins, top3, g1_wins, place_sum }
}

/// A history as it is shown: its records, newest first, and its aggregates.
pub struct HistoryReport<'a> {
    pub records: Vec<&'a RaceRecord>,
    pub summary: Summary,
}

/// The records of a row of references.
pub open spec fn records_of(s: Seq<&RaceRecord>) -> Seq<RaceRecord> {
    s.map_values(|r: &RaceRecord| *r)
}

impl<'a> HistoryReport<'a> {
    /// Whether this shows a history: every record of it, the newest first.
    pub open spec fn shows(self, hist: Seq<RaceRecord>) -> bool {
        &&& records_of(self.records@) == hist.reverse()
        &&& self.summary.sums_up(hist)
    }
}

/// The history as it is shown.
pub fn history_report<'a>(hist: &'a Vec<RaceRecord>) -> (r: HistoryReport<'a>)
    ensures
        r.shows(hist@),
{
    let mut records: Vec<&'a RaceRecord> = Vec::new();
    let mut left: usize = hist.len();
    assert(records_of(records@) =~= hist@.skip(left as int).reverse());
    while left > 0
        invariant
            left <= hist.len(),
            records_of(records@) == hist@.skip(left as int).reverse(),
        decreases left,
    {
        left = left - 1;
        let ghost before = records@;
        records.push(&hist[left]);
        assert(records_of(records@) =~= records_of(before).push(hist@[left as int]));
        assert(records_of(records@) =~= hist@.skip(left as int).reverse());
    }
    assert(hist@.skip(0) =~= hist@);
    HistoryReport { records, summary: summarize(hist) }
}

/// A history is shown newest first, whole, with counts over all of it; without a race every count is 0
/// and no record is shown.
pub proof fn lemma_history_shown(r: HistoryReport, hist: Seq<RaceRecord>)
    requires
        r.shows(hist),
    ensures
        r.records@.len() == hist.len(),
        forall|i: int|
            0 <= i < hist.len() ==> *(#[trigger] r.records@[i]) == hist[hist.len() - 1 - i],
        r.summary.total == hist.len(),
        hist.len() == 0 ==> r.summary == (Summary {
            total: 0,
            wins: 0,
            top3: 0,
            g1_wins: 0,
            place_sum: 0,
        }),
{
    assert(records_of(r.records@).len() == hist.len());
    assert forall|i: int| 0 <= i < hist.len() implies *(#[trigger] r.records@[i]) == hist[hist.len()
        - 1 - i] by {
        assert(records_of(r.records@)[i] == *r.records@[i]);
    }
}

/// A result lists every gate once, in finish order, gates with the same place in gate order.
pub proof fn lemma_result_in_finish_order(t: Tree, b: Seq<u8>)
    requires
        order_of(t, b) is Some,
    ensures
        gates_of(t, b) is Some,
        ({
            let gates = gates_of(t, b)->0;
            let order = order_of(t, b)->0;
            &&& 1 <= order.len() <= MAX_FIELD
            &&& order.len() == gates.len()
            &&& order.to_multiset() =~= gates.to_multiset()
            &&& forall|i: int, j: int|
                0 <= i <= j < order.len() ==> (#[trigger] order[i]).place <= (
                #[trigger] order[j]).place
            &&& forall|k: int| #[trigger]
                with_key(order, by_place(), k) == with_key(gates, by_place(), k)
        }),
{
    lemma_order_len(t, b);
    let gates = gates_of(t, b)->0;
    let order = order_of(t, b)->0;
    lemma_sort(gates, by_place());
    assert forall|i: int, j: int| 0 <= i <= j < order.len() implies (#[trigger] order[i]).place <= (
    #[trigger] order[j]).place by {
        assert(by_place()(order[i]) <= by_place()(order[j]));
    }
}

/// Sending the same race again within the window changes nothing.
pub proof fn lemma_resend_ignored(hist: Seq<RaceRecord>, rec: RaceRecord, again: RaceRecord)
    requires
        again.place == rec.place,
        again.field == rec.field,
        rec.epoch_ms <= again.epoch_ms < rec.epoch_ms + DEDUP_WINDOW_MS,
    ensures
        repeats(newest(hist.push(rec)), again, true),
{
    let all = hist.push(rec);
    assert(newest(all).last() == rec);
}

/// The history never holds more than [`MAX_HISTORY`] records once a race has been recorded, and the
/// race recorded is the last one.
pub proof fn lemma_history_bounded(hist: Seq<RaceRecord>, rec: RaceRecord)
    ensures
        newest(hist.push(rec)).len() <= MAX_HISTORY,
        newest(hist.push(rec)).last() == rec,
{
}

/// Wins are among the first three finishes, first-grade wins among the wins, and none of them
/// exceeds the number of races.
pub proof fn lemma_summary_ordered(hist: Seq<RaceRecord>)
    ensures
        count_of(hist, won_g1()) <= count_of(hist, won()) <= count_of(hist, placed())
            <= hist.len(),
    decreases hist.len(),
{
    if hist.len() > 0 {
        lemma_summary_ordered(hist.drop_last());
    }
}

/// A number as the simulation writes it: four bytes, the lowest first.
pub open spec fn four_bytes(n: int) -> Seq<u8> {
    seq![
        (n % 0x100) as u8,
        (n / 0x100 % 0x100) as u8,
        (n / 0x1_0000 % 0x100) as u8,
        (n / 0x100_0000 % 0x100) as u8,
    ]
}

/// Whether a number stands at an offset.
pub open spec fn stands_at(b: Seq<u8>, off: int, n: int) -> bool {
    0 <= off && off + 4 <= b.len() && b.subrange(off, off + 4) == four_bytes(n)
}

/// A number that is written is the number that is read, with or without a sign; past the end there is
/// none.
pub proof fn lemma_number_read_back(b: Seq<u8>, off: int, n: int)
    ensures
        stands_at(b, off, n) && 0 <= n < 0x1_0000_0000 ==> bits_at(b, off) == Some(n),
        stands_at(b, off, n) && 0 <= n < 0x8000_0000 ==> i32_at(b, off) == Some(n),
        stands_at(b, off, n + 0x1_0000_0000) && -0x8000_0000 <= n < 0 ==> i32_at(b, off) == Some(n),
        off < 0 || b.len() < off + 4 ==> bits_at(b, off) is None && i32_at(b, off) is None,
{
    if stands_at(b, off, n) {
        lemma_four_bytes(b, off, n);
    }
    if stands_at(b, off, n + 0x1_0000_0000) {
        lemma_four_bytes(b, off, n + 0x1_0000_0000);
    }
}

proof fn lemma_four_bytes(b: Seq<u8>, off: int, n: int)
    requires
        stands_at(b, off, n),
    ensures
        0 <= n < 0x1_0000_0000 ==> le_u32(b, off) == n,
{
    let w = b.subrange(off, off + 4);
    let v = four_bytes(n);
    assert(b[off] == w[0] && b[off + 1] == w[1] && b[off + 2] == w[2] && b[off + 3] == w[3]);
    assert(w[0] == v[0] && w[1] == v[1] && w[2] == v[2] && w[3] == v[3]);
    if 0 <= n < 0x1_0000_0000 {
        assert(n / 0x100_0000 % 0x100 == n / 0x100_0000);
    }
}

/// A simulation is laid out as a header of its own length, with the number of horses and the size of a
/// result, a padding, the frames, another padding and the results; from 1 to 30 horses are accepted.
pub proof fn lemma_layout(
    b: Seq<u8>,
    header: int,
    horses: int,
    size: int,
    pad: int,
    frames: int,
    frame: int,
    gap: int,
)
    requires
        0 <= header < 0x8000_0000,
        0 <= horses < 0x8000_0000,
        0 <= size < 0x8000_0000,
        0 <= pad < 0x8000_0000,
        0 <= frames < 0x8000_0000,
        0 <= frame < 0x8000_0000,
        0 <= gap < 0x8000_0000,
        stands_at(b, 0, header),
        stands_at(b, header + 8, horses),
        stands_at(b, header + 16, size),
        stands_at(b, header + 20, pad),
        stands_at(b, header + 24 + pad, frames),
        stands_at(b, header + 28 + pad, frame),
        stands_at(b, header + 32 + pad + frames * frame, gap),
    ensures
        1 <= horses <= 30 && size > 0 ==> layout_of(b) == Some(
            (horses, size, header + 36 + pad + frames * frame + gap),
        ),
        horses == 0 || horses > 30 || size == 0 ==> layout_of(b) is None,
{
    lemma_number_read_back(b, 0, header);
    lemma_number_read_back(b, header + 8, horses);
    lemma_number_read_back(b, header + 16, size);
    lemma_number_read_back(b, header + 20, pad);
    lemma_number_read_back(b, header + 24 + pad, frames);
    lemma_number_read_back(b, header + 28 + pad, frame);
    lemma_number_read_back(b, header + 32 + pad + frames * frame, gap);
    assert(frames == 0 || frame == 0 ==> frames * frame == 0) by (nonlinear_arith);
    assert(span(frames, frame) == Some(frames * frame));
    assert(header_of(b) == Some((horses, size, header + 20)));
    assert(after_padding(b, header + 20) == Some(header + 24 + pad));
    assert(after_frames(b, header + 24 + pad) == Some(header + 32 + pad + frames * frame));
    assert(after_padding(b, header + 32 + pad + frames * frame) == Some(
        header + 36 + pad + frames * frame + gap,
    ));
}

/// The result of a gate stands as many result sizes behind the first as gates come before it: the place,
/// counted from 0, then the time shown, and at byte 27 the raw time. The horse of a gate is the player's
/// where the viewer of that post position is the player.
pub proof fn lemma_gate_result(
    b: Seq<u8>,
    size: int,
    off: int,
    i: int,
    horses: Seq<Tree>,
    player: i64,
    place: int,
    time: u32,
    raw: u32,
)
    requires
        0 <= i < 30,
        0 < size,
        0 <= place < 0x8000_0000,
        stands_at(b, off + i * size, place),
        stands_at(b, off + i * size + 4, time as int),
        stands_at(b, off + i * size + 27, raw as int),
    ensures
        finisher_at(b, size, off, i, horses, player) matches Some(f) && f.place == place + 1 && f.time
            == time && f.raw == raw && (f.is_player <==> gate_viewer(horses, i + 1) != 0 && gate_viewer(
            horses,
            i + 1,
        ) == player),
{
    assert(i == 0 ==> i * size == 0) by (nonlinear_arith);
    assert(span(i, size) == Some(i * size));
    lemma_number_read_back(b, off + i * size, place);
    lemma_number_read_back(b, off + i * size + 4, time as int);
    lemma_number_read_back(b, off + i * size + 27, raw as int);
}

/// A result that is cut off is no result, and then neither is the race.
pub proof fn lemma_gate_cut_off(
    b: Seq<u8>,
    size: int,
    off: int,
    i: int,
    n: nat,
    horses: Seq<Tree>,
    player: i64,
)
    requires
        0 <= i < n,
        0 < size,
        b.len() < off + i * size + 31,
    ensures
        finisher_at(b, size, off, i, horses, player) is None,
        finishers(b, size, off, n, horses, player) is None,
{
    assert(i == 0 ==> i * size == 0) by (nonlinear_arith);
    assert(span(i, size) == Some(i * size));
    lemma_unreadable(b, size, off, (i + 1) as nat, n, horses, player);
}

/// Where every gate has a result, the race has all of them, in the order of the gates.
pub proof fn lemma_all_gates(
    b: Seq<u8>,
    size: int,
    off: int,
    n: nat,
    horses: Seq<Tree>,
    player: i64,
)
    requires
        forall|i: int| 0 <= i < n ==> (#[trigger] finisher_at(b, size, off, i, horses, player)) is Some,
    ensures
        finishers(b, size, off, n, horses, player) matches Some(s) && s.len() == n && forall|i: int|
            0 <= i < n ==> Some(#[trigger] s[i]) == finisher_at(b, size, off, i, horses, player),
    decreases n,
{
    if n > 0 {
        lemma_all_gates(b, size, off, (n - 1) as nat, horses, player);
        let s = finishers(b, size, off, (n - 1) as nat, horses, player)->0;
        let f = finisher_at(b, size, off, n - 1, horses, player)->0;
        let r = s.push(f);
        assert forall|i: int| 0 <= i < n implies Some(#[trigger] r[i]) == finisher_at(
            b,
            size,
            off,
            i,
            horses,
            player,
        ) by {
            if i < s.len() {
                assert(r[i] == s[i]);
            }
        }
    }
}

/// A gate belongs to the viewer of the last horse listed for it.
pub proof fn lemma_gate_viewer(horses: Seq<Tree>, gate: int, i: int)
    requires
        0 <= i < horses.len(),
        horses[i].int_or_zero("frame_order"@) == gate,
        forall|j: int|
            i < j < horses.len() ==> (#[trigger] horses[j]).int_or_zero("frame_order"@) != gate,
    ensures
        gate_viewer(horses, gate) == horses[i].int_or_zero("viewer_id"@),
    decreases horses.len(),
{
    if i < horses.len() - 1 {
        let t = horses.drop_last();
        assert(horses[horses.len() - 1].int_or_zero("frame_order"@) != gate);
        assert(t[i] == horses[i]);
        assert forall|j: int| i < j < t.len() implies (#[trigger] t[j]).int_or_zero("frame_order"@)
            != gate by {
            assert(t[j] == horses[j]);
        }
        lemma_gate_viewer(t, gate, i);
    }
}

/// A gate for which no horse is listed belongs to nobody.
pub proof fn lemma_gate_unowned(horses: Seq<Tree>, gate: int)
    requires
        forall|j: int|
            0 <= j < horses.len() ==> (#[trigger] horses[j]).int_or_zero("frame_order"@) != gate,
    ensures
        gate_viewer(horses, gate) == 0,
    decreases horses.len(),
{
    if horses.len() > 0 {
        let t = horses.drop_last();
        assert(horses[horses.len() - 1].int_or_zero("frame_order"@) != gate);
        assert forall|j: int| 0 <= j < t.len() implies (#[trigger] t[j]).int_or_zero("frame_order"@)
            != gate by {
            assert(t[j] == horses[j]);
        }
        lemma_gate_unowned(t, gate);
    }
}

/// The player is the viewer that the response names, or else the first viewer of a horse that starts.
pub proof fn lemma_player_viewer(t: Tree, horses: Seq<Tree>)
    ensures
        first_int_of(hits(t, "viewer_id"@)) matches Some(n) ==> (n != 0 ==> player_viewer(t, horses) == n),
        first_int_of(hits(t, "viewer_id"@)) is None ==> {
            &&& forall|i: int|
                0 <= i < horses.len() && (#[trigger] horses[i]).int_or_zero("frame_order"@) >= 1
                    && horses[i].int_or_zero("viewer_id"@) != 0 && (forall|j: int|
                    0 <= j < i && (#[trigger] horses[j]).int_or_zero("frame_order"@) >= 1
                        ==> horses[j].int_or_zero("viewer_id"@) == 0) ==> player_viewer(t, horses)
                    == horses[i].int_or_zero("viewer_id"@)
            &&& (forall|i: int|
                0 <= i < horses.len() ==> (#[trigger] horses[i]).int_or_zero("viewer_id"@) == 0)
                ==> player_viewer(t, horses) == 0
        },
{
    lemma_lone_viewer(horses);
}

proof fn lemma_lone_viewer(horses: Seq<Tree>)
    ensures
        forall|i: int|
            0 <= i < horses.len() && (#[trigger] horses[i]).int_or_zero("frame_order"@) >= 1
                && horses[i].int_or_zero("viewer_id"@) != 0 && (forall|j: int|
                0 <= j < i && (#[trigger] horses[j]).int_or_zero("frame_order"@) >= 1
                    ==> horses[j].int_or_zero("viewer_id"@) == 0) ==> lone_viewer(horses)
                == horses[i].int_or_zero("viewer_id"@),
        (forall|i: int|
            0 <= i < horses.len() && (#[trigger] horses[i]).int_or_zero("frame_order"@) >= 1
                ==> horses[i].int_or_zero("viewer_id"@) == 0) ==> lone_viewer(horses) == 0,
    decreases horses.len(),
{
    if horses.len() > 0 {
        let t = horses.drop_last();
        lemma_lone_viewer(t);
        assert(horses[horses.len() - 1] == horses.last());
        assert forall|i: int| 0 <= i < t.len() implies #[trigger] t[i] == horses[i] by {}
        assert forall|i: int|
            0 <= i < horses.len() && (#[trigger] horses[i]).int_or_zero("frame_order"@) >= 1
                && horses[i].int_or_zero("viewer_id"@) != 0 && (forall|j: int|
                0 <= j < i && (#[trigger] horses[j]).int_or_zero("frame_order"@) >= 1
                    ==> horses[j].int_or_zero("viewer_id"@) == 0) implies lone_viewer(horses)
            == horses[i].int_or_zero("viewer_id"@) by {
            if i < t.len() {
                assert(t[i] == horses[i]);
                assert forall|j: int|
                    0 <= j < i && (#[trigger] t[j]).int_or_zero("frame_order"@) >= 1 implies t[j].int_or_zero(
                    "viewer_id"@,
                ) == 0 by {
                    assert(t[j] == horses[j]);
                }
            } else {
                assert forall|j: int|
                    0 <= j < t.len() && (#[trigger] t[j]).int_or_zero("frame_order"@)
                        >= 1 implies t[j].int_or_zero("viewer_id"@) == 0 by {
                    assert(t[j] == horses[j]);
                }
                assert(lone_viewer(t) == 0);
            }
        }
        if forall|i: int|
            0 <= i < horses.len() && (#[trigger] horses[i]).int_or_zero("frame_order"@) >= 1
                ==> horses[i].int_or_zero("viewer_id"@) == 0 {
            assert forall|j: int|
                0 <= j < t.len() && (#[trigger] t[j]).int_or_zero("frame_order"@)
                    >= 1 implies t[j].int_or_zero("viewer_id"@) == 0 by {
                assert(t[j] == horses[j]);
            }
        }
    }
}

/// The player's row is the last that is the player's, and there is none only where no row is.
proof fn lemma_player_row(order: Seq<Finisher>)
    ensures
        player_row(order) matches Some(f) ==> f.is_player && order.contains(f),
        player_row(order) is None ==> forall|i: int| 0 <= i < order.len() ==> !(#[trigger] order[i]).is_player,
    decreases order.len(),
{
    if order.len() > 0 && !order.last().is_player {
        let t = order.drop_last();
        lemma_player_row(t);
        assert forall|i: int| 0 <= i < t.len() implies t[i] == #[trigger] order[i] by {}
        if player_row(t) is Some {
            let k = choose|k: int| 0 <= k < t.len() && t[k] == player_row(t)->0;
            assert(order[k] == t[k]);
        } else {
            assert forall|i: int| 0 <= i < order.len() implies !(#[trigger] order[i]).is_player by {
                if i < t.len() {
                    assert(t[i] == order[i]);
                }
            }
        }
    }
}

/// A decoded race gives the player's own place and time, and a label of both the place and the field; none
/// of them where the player did not run.
pub proof fn lemma_decoded(d: Decoded, order: Seq<Finisher>)
    requires
        d.shows(order),
    ensures
        d.order@ == order,
        d.field_size == order.len(),
        d.player_place matches Some(p) ==> exists|i: int|
            0 <= i < order.len() && (#[trigger] order[i]).is_player && order[i].place == p
                && d.player_time == Some(order[i].time) && d.label@ == ordinal_spec(p as int) + " of "@
                + dec(order.len() as int),
        d.player_place is None ==> d.player_time is None && d.label@ == seq!['—'] && forall|i: int|
            0 <= i < order.len() ==> !(#[trigger] order[i]).is_player,
{
    lemma_player_row(order);
    reveal_strlit("—");
    if player_row(order) is Some {
        let k = choose|k: int| 0 <= k < order.len() && order[k] == player_row(order)->0;
        assert(order[k].is_player);
    } else {
        assert("—"@ =~= seq!['—']);
    }
}

/// The suffix of a place: 1st, 2nd and 3rd, likewise 21st and so on, but 11th to 13th.
pub proof fn lemma_ordinals(n: int)
    requires
        n >= 0,
    ensures
        ordinal_spec(n) == dec(n) + ordinal_suffix(n),
        n % 10 == 1 && n % 100 != 11 ==> ordinal_suffix(n) == "st"@,
        n % 10 == 2 && n % 100 != 12 ==> ordinal_suffix(n) == "nd"@,
        n % 10 == 3 && n % 100 != 13 ==> ordinal_suffix(n) == "rd"@,
        n % 10 == 0 || n % 10 > 3 || n % 100 == 11 || n % 100 == 12 || n % 100 == 13 ==> ordinal_suffix(
            n,
        ) == "th"@,
{
}

/// A simulation is a gzip stream, told by its first two bytes, in base 64.
pub proof fn lemma_blob(t: Tree, text: Seq<char>)
    requires
        first_text_of(hits(t, "race_scenario"@)) == Some(text),
    ensures
        base64_bytes(text) is None ==> blob_of(t) is None,
        base64_bytes(text) matches Some(gz) ==> {
            &&& gz.len() < 2 ==> blob_of(t) is None
            &&& gz.len() >= 2 && gz[0] == 31 && gz[1] == 139 ==> blob_of(t) == gunzip_bytes(gz)
            &&& gz.len() >= 2 && (gz[0] != 31 || gz[1] != 139) ==> blob_of(t) is None
        },
{
}

/// A race is sent again where the last one recorded had the same place, field and time and was less than
/// two minutes ago.
pub proof fn lemma_repeats(hist: Seq<RaceRecord>, rec: RaceRecord, same_time: bool)
    ensures
        repeats(hist, rec, same_time) <==> hist.len() > 0 && same_time && hist[hist.len() - 1].place
            == rec.place && hist[hist.len() - 1].field == rec.field && rec.epoch_ms < hist[hist.len()
            - 1].epoch_ms + 120_000,
{
}

/// The history keeps the newest 2000 records, in their order.
pub proof fn lemma_newest(hist: Seq<RaceRecord>)
    ensures
        hist.len() <= 2000 ==> newest(hist) == hist,
        hist.len() > 2000 ==> newest(hist).len() == 2000 && forall|i: int|
            0 <= i < 2000 ==> #[trigger] newest(hist)[i] == hist[hist.len() - 2000 + i],
{
}

/// A record counts as a win at place 1, among the first three up to place 3, and as a win of the highest
/// grade where the grade is 100; the places add up.
pub proof fn lemma_summary(hist: Seq<RaceRecord>, rec: RaceRecord, a: Summary, b: Summary)
    requires
        a.sums_up(hist),
        b.sums_up(hist.push(rec)),
    ensures
        b.total == a.total + 1,
        b.wins == a.wins + if rec.place == 1 {
            1int
        } else {
            0
        },
        b.top3 == a.top3 + if rec.place == 1 || rec.place == 2 || rec.place == 3 {
            1int
        } else {
            0
        },
        b.g1_wins == a.g1_wins + if rec.place == 1 && rec.grade == 100 {
            1int
        } else {
            0
        },
        b.place_sum == a.place_sum + rec.place,
{
    assert(hist.push(rec).drop_last() =~= hist);
}

/// A payload is revealed where it is a document that carries a simulation with a result; the result is
/// then that of the simulation.
pub proof fn lemma_revealed(bytes: Seq<u8>, t: Tree)
    requires
        msgpack_tree(bytes) == Some(t),
    ensures
        blob_of(t) is None ==> revealed(bytes) is None,
        blob_of(t) matches Some(b) ==> revealed(bytes) == order_of(t, b),
        first_text_of(hits(t, "race_scenario"@)) is None ==> blob_of(t) is None,
{
}

/// The results are those of the first list of horses, for as many gates as the simulation has.
pub proof fn lemma_gates_of(t: Tree, b: Seq<u8>, horses: Seq<Tree>)
    requires
        first_list_of(hits(t, "race_horse_data"@)) == Some(horses),
    ensures
        layout_of(b) is None ==> gates_of(t, b) is None && order_of(t, b) is None,
        layout_of(b) matches Some(l) ==> gates_of(t, b) == finishers(
            b,
            l.1,
            l.2,
            l.0 as nat,
            horses,
            player_viewer(t, horses),
        ),
        gates_of(t, b) is None ==> order_of(t, b) is None,
        gates_of(t, b) is Some ==> order_of(t, b) is Some,
{
}

} // verus!
