//! Log lines: which are written, and in which files.
//!
//! A line is queued, not written; a writer takes the queue in batches. A line that repeats within a
//! short while is counted instead of queued, and a full queue drops lines, counting them.

use std::collections::HashMap;
use vstd::prelude::*;

use crate::text::{same, show_u64};
use crate::text::dec;

verus! {

/// How many lines are queued at most.
pub const QUEUE_CAP: usize = 4096;

/// The size at which a log file is rolled over.
pub const ROTATE_BYTES: u64 = 8_388_608;

/// How long, in milliseconds, a repeated line is suppressed.
pub const DEDUP_WINDOW_MS: u64 = 2000;

/// How many different lines are remembered, about.
pub const DEDUP_TRACK: usize = 256;

/// When a line was last written, and how often it was suppressed since.
#[derive(Clone, Copy, PartialEq, Eq, Structural, Debug)]
pub struct Burst {
    pub last_ms: u64,
    pub repeats: u32,
}

/// The lines to be written, and what is remembered of those that were.
pub struct Log {
    /// File and line.
    pub lines: Vec<(&'static str, String)>,
    /// Lines dropped since the last batch.
    pub dropped: u64,
    /// Lines dropped ever.
    pub dropped_total: u64,
    /// Verbose lines are kept.
    pub trace_on: bool,
    /// The lines written of late, by a hash of their text.
    pub bursts: HashMap<u64, Burst>,
}

/// What a row of lines says.
pub open spec fn line_views(s: Seq<(&'static str, String)>) -> Seq<(Seq<char>, Seq<char>)> {
    s.map_values(|p: (&'static str, String)| (p.0@, p.1@))
}

/// The memory of written lines, forgotten where it has grown too large.
pub open spec fn bounded(m: Map<u64, Burst>) -> Map<u64, Burst> {
    if m.len() > DEDUP_TRACK {
        Map::empty()
    } else {
        m
    }
}

/// Whether a line is a repeat: it was written less than the window ago.
pub open spec fn is_repeat(m: Map<u64, Burst>, key: u64, now: u64) -> bool {
    m.dom().contains(key) && now - m[key].last_ms < DEDUP_WINDOW_MS
}

/// A count that stays at its limit.
pub open spec fn one_more(n: u32) -> u32 {
    if n == u32::MAX {
        n
    } else {
        (n + 1) as u32
    }
}

/// What is remembered of a line after it was handed in: a repeat is counted, any other line starts
/// anew.
pub open spec fn remembered(m: Map<u64, Burst>, key: u64, now: u64) -> Map<u64, Burst> {
    if is_repeat(m, key, now) {
        m.insert(key, Burst { last_ms: m[key].last_ms, repeats: one_more(m[key].repeats) })
    } else {
        m.insert(key, Burst { last_ms: now, repeats: 0 })
    }
}

/// How many repeats a line that is written stands for.
pub open spec fn tally(m: Map<u64, Burst>, key: u64) -> u32 {
    if m.dom().contains(key) {
        m[key].repeats
    } else {
        0
    }
}

/// What is appended to a line that stands for `n` repeats: one summary, `(xN)`.
pub open spec fn tally_text(n: u32) -> Seq<char> {
    if n > 0 {
        "  (x"@ + dec(n as int) + ")"@
    } else {
        Seq::empty()
    }
}

/// Nothing queued, nothing remembered.
pub fn new_log() -> (r: Log)
    ensures
        r.lines@.len() == 0,
        r.dropped == 0,
        r.dropped_total == 0,
        !r.trace_on,
        r.bursts@ == Map::<u64, Burst>::empty(),
{
    broadcast use vstd::std_specs::hash::group_hash_axioms;

    Log {
        lines: Vec::new(),
        dropped: 0,
        dropped_total: 0,
        trace_on: false,
        bursts: HashMap::new(),
    }
}

/// Keep verbose lines, or not.
pub fn set_trace(l: &mut Log, on: bool)
    ensures
        *final(l) == (Log { trace_on: on, ..*old(l) }),
{
    l.trace_on = on;
}

/// Whether verbose lines are kept.
pub fn trace_enabled(l: &Log) -> (r: bool)
    ensures
        r == l.trace_on,
{
    l.trace_on
}

/// How many lines wait to be written.
pub fn queued(l: &Log) -> (r: usize)
    ensures
        r == l.lines@.len(),
{
    l.lines.len()
}

/// Whether a line with hash `key` is to be written: the repeats that it stands for, or `None` for a
/// repeat.
pub fn burst_gate(bursts: &mut HashMap<u64, Burst>, key: u64, now: u64) -> (r: Option<u32>)
    ensures
        ({
            let m = bounded(old(bursts)@);
            &&& final(bursts)@ == remembered(m, key, now)
            &&& r == (if is_repeat(m, key, now) {
                None
            } else {
                Some(tally(m, key))
            })
        }),
{
    broadcast use vstd::std_specs::hash::group_hash_axioms;

    if bursts.len() > DEDUP_TRACK {
        bursts.clear();
    }
    let held: Option<Burst> = match bursts.get(&key) {
        Some(b) => Some(*b),
        None => None,
    };
    match held {
        Some(b) => {
            if now < b.last_ms || now - b.last_ms < DEDUP_WINDOW_MS {
                let repeats: u32 = if b.repeats == u32::MAX {
                    b.repeats
                } else {
                    b.repeats + 1
                };
                let _ = bursts.insert(key, Burst { last_ms: b.last_ms, repeats });
                None
            } else {
                let _ = bursts.insert(key, Burst { last_ms: now, repeats: 0 });
                Some(b.repeats)
            }
        },
        None => {
            let _ = bursts.insert(key, Burst { last_ms: now, repeats: 0 });
            Some(0)
        },
    }
}

/// The log after a line was handed in.
pub open spec fn logged(
    l: Log,
    r: Log,
    file: Seq<char>,
    msg: Seq<char>,
    key: u64,
    stamp: Seq<char>,
    now: u64,
) -> bool {
    let m = bounded(l.bursts@);
    let line = stamp + msg + tally_text(tally(m, key));
    &&& r.trace_on == l.trace_on
    &&& r.bursts@ == remembered(m, key, now)
    &&& if is_repeat(m, key, now) {
        r.lines@ == l.lines@ && r.dropped == l.dropped && r.dropped_total == l.dropped_total
    } else if l.lines@.len() >= QUEUE_CAP {
        &&& r.lines@ == l.lines@
        &&& r.dropped == l.dropped.wrapping_add(1)
        &&& r.dropped_total == l.dropped_total.wrapping_add(1)
    } else {
        &&& line_views(r.lines@) == line_views(l.lines@).push((file, line))
        &&& r.dropped == l.dropped
        &&& r.dropped_total == l.dropped_total
    }
}

/// Queue a line for a file. `key` is a hash of the message, `stamp` the time of day that the line
/// starts with.
pub fn log_to(l: &mut Log, file: &'static str, msg: &str, key: u64, stamp: &str, now: u64)
    ensures
        logged(*old(l), *final(l), file@, msg@, key, stamp@, now),
        old(l).lines@.len() <= QUEUE_CAP ==> final(l).lines@.len() <= QUEUE_CAP,
{
    match burst_gate(&mut l.bursts, key, now) {
        None => {},
        Some(n) => {
            if l.lines.len() >= QUEUE_CAP {
                l.dropped = l.dropped.wrapping_add(1);
                l.dropped_total = l.dropped_total.wrapping_add(1);
                return ;
            }
            let mut line: String = stamp.to_owned();
            line.append(msg);
            if n > 0 {
                line.append("  (x");
                line.append(show_u64(n as u64).as_str());
                line.append(")");
            }
            assert(line@ =~= stamp@ + msg@ + tally_text(n));
            let ghost said = line@;
            let ghost before = l.lines@;
            l.lines.push((file, line));
            assert(line_views(l.lines@) =~= line_views(before).push((file@, said)));
        },
    }
}

/// Queue a line for the default log.
pub fn log(l: &mut Log, msg: &str, key: u64, stamp: &str, now: u64)
    ensures
        logged(*old(l), *final(l), "overseer-native.log"@, msg@, key, stamp@, now),
        old(l).lines@.len() <= QUEUE_CAP ==> final(l).lines@.len() <= QUEUE_CAP,
{
    log_to(l, "overseer-native.log", msg, key, stamp, now);
}

/// Queue a verbose line for the default log; nothing unless verbose lines are kept.
pub fn trace(l: &mut Log, msg: &str, key: u64, stamp: &str, now: u64)
    ensures
        old(l).trace_on ==> logged(
            *old(l),
            *final(l),
            "overseer-native.log"@,
            msg@,
            key,
            stamp@,
            now,
        ),
        !old(l).trace_on ==> *final(l) == *old(l),
        old(l).lines@.len() <= QUEUE_CAP ==> final(l).lines@.len() <= QUEUE_CAP,
{
    if l.trace_on {
        log_to(l, "overseer-native.log", msg, key, stamp, now);
    }
}

/// The notice about dropped lines, if there were any.
pub open spec fn drop_notice(dropped: u64, stamp: Seq<char>) -> Seq<(Seq<char>, Seq<char>)> {
    if dropped > 0 {
        seq![
            (
                "overseer-native.log"@,
                stamp + "[log] "@ + dec(dropped as int) + " lines dropped (write queue full)"@,
            ),
        ]
    } else {
        Seq::empty()
    }
}

/// Take everything that is queued, with a notice where lines were dropped.
pub fn take_batch(l: &mut Log, stamp: &str) -> (r: Vec<(&'static str, String)>)
    ensures
        line_views(r@) == line_views(old(l).lines@) + drop_notice(old(l).dropped, stamp@),
        final(l).lines@.len() == 0,
        final(l).dropped == 0,
        final(l).dropped_total == old(l).dropped_total,
        final(l).trace_on == old(l).trace_on,
        final(l).bursts == old(l).bursts,
{
    let mut batch: Vec<(&'static str, String)> = Vec::new();
    batch.append(&mut l.lines);
    let dropped: u64 = l.dropped;
    l.dropped = 0;
    let ghost before = batch@;
    if dropped > 0 {
        let mut line: String = stamp.to_owned();
        line.append("[log] ");
        line.append(show_u64(dropped).as_str());
        line.append(" lines dropped (write queue full)");
        let ghost said = line@;
        batch.push(("overseer-native.log", line));
        assert(line_views(batch@) =~= line_views(before).push(("overseer-native.log"@, said)));
    }
    assert(line_views(batch@) =~= line_views(old(l).lines@) + drop_notice(dropped, stamp@));
    batch
}

/// A row of texts with `line` and a line end added to that of `file`, which is appended when there is
/// none.
pub open spec fn add_line(
    files: Seq<(Seq<char>, Seq<char>)>,
    file: Seq<char>,
    line: Seq<char>,
) -> Seq<(Seq<char>, Seq<char>)>
    decreases files.len(),
{
    if files.len() == 0 {
        seq![(file, line + seq!['\n'])]
    } else if files[0].0 == file {
        seq![(file, files[0].1 + line + seq!['\n'])] + files.drop_first()
    } else {
        seq![files[0]] + add_line(files.drop_first(), file, line)
    }
}

/// What a batch writes to each file: its lines in order, files in order of first appearance.
pub open spec fn grouped(batch: Seq<(Seq<char>, Seq<char>)>) -> Seq<(Seq<char>, Seq<char>)>
    decreases batch.len(),
{
    if batch.len() == 0 {
        Seq::empty()
    } else {
        add_line(grouped(batch.drop_last()), batch.last().0, batch.last().1)
    }
}

/// Add a line to the text of its file.
fn put_line(files: &mut Vec<(&'static str, String)>, file: &'static str, line: &str)
    ensures
        line_views(final(files)@) == add_line(line_views(old(files)@), file@, line@),
{
    let ghost all = line_views(files@);
    let mut i: usize = 0;
    assert(all.skip(0) =~= all);
    assert(all.take(0) + add_line(all.skip(0), file@, line@) =~= add_line(all, file@, line@));
    while i < files.len()
        invariant
            i <= files.len(),
            line_views(files@) == all,
            all == line_views(old(files)@),
            add_line(all, file@, line@) == all.take(i as int) + add_line(
                all.skip(i as int),
                file@,
                line@,
            ),
        decreases files.len() - i,
    {
        let ghost rest = all.skip(i as int);
        assert(rest.drop_first() =~= all.skip(i as int + 1));
        assert(rest[0] == (files@[i as int].0@, files@[i as int].1@));
        if same(files[i].0, file) {
            let mut text: String = files[i].1.clone();
            text.append(line);
            text.push('\n');
            assert(text@ =~= all[i as int].1 + line@ + seq!['\n']);
            files.set(i, (file, text));
            assert(line_views(files@) =~= all.take(i as int) + add_line(rest, file@, line@));
            return ;
        }
        assert(all.take(i as int) + add_line(rest, file@, line@) =~= all.take(i as int + 1)
            + add_line(all.skip(i as int + 1), file@, line@));
        i = i + 1;
    }
    let mut text: String = line.to_owned();
    text.push('\n');
    assert(text@ =~= line@ + seq!['\n']);
    files.push((file, text));
    assert(line_views(files@) =~= all.take(i as int) + add_line(all.skip(i as int), file@, line@));
}

/// Group a batch by file, so that each file is opened once.
pub fn write_batch(batch: &Vec<(&'static str, String)>) -> (r: Vec<(&'static str, String)>)
    ensures
        line_views(r@) == grouped(line_views(batch@)),
{
    let ghost all = line_views(batch@);
    let mut files: Vec<(&'static str, String)> = Vec::new();
    let mut i: usize = 0;
    assert(line_views(files@) =~= grouped(all.take(0)));
    while i < batch.len()
        invariant
            i <= batch.len(),
            all == line_views(batch@),
            line_views(files@) == grouped(all.take(i as int)),
        decreases batch.len() - i,
    {
        assert(all.take(i as int + 1).drop_last() =~= all.take(i as int));
        assert(all.take(i as int + 1).last() == (batch@[i as int].0@, batch@[i as int].1@));
        put_line(&mut files, batch[i].0, batch[i].1.as_str());
        i = i + 1;
    }
    assert(all.take(i as int) =~= all);
    files
}

/// Whether a log file of this size is rolled over before it is written to.
pub fn rotate_if_needed(len: u64) -> (r: bool)
    ensures
        r == (len >= ROTATE_BYTES),
{
    len >= ROTATE_BYTES
}

/// What is remembered after lines were handed in, each by its hash and its time.
pub open spec fn remembered_all(m: Map<u64, Burst>, lines: Seq<(u64, u64)>) -> Map<u64, Burst>
    decreases lines.len(),
{
    if lines.len() == 0 {
        m
    } else {
        let before = bounded(remembered_all(m, lines.drop_last()));
        remembered(before, lines.last().0, lines.last().1)
    }
}

/// How many of some lines have the hash `key`.
pub open spec fn times_of(lines: Seq<(u64, u64)>, key: u64) -> nat
    decreases lines.len(),
{
    if lines.len() == 0 {
        0
    } else {
        times_of(lines.drop_last(), key) + if lines.last().0 == key {
            1nat
        } else {
            0nat
        }
    }
}

/// Whether what is remembered is not forgotten while lines are handed in.
pub open spec fn never_full(m: Map<u64, Burst>, lines: Seq<(u64, u64)>) -> bool {
    forall|i: int|
        0 <= i <= lines.len() ==> (#[trigger] remembered_all(m, lines.take(i))).len() <= DEDUP_TRACK
}

/// A line that repeats within the window is not written, however often and whatever other lines come in
/// between; the first one after the window tells how often it was left out.
pub proof fn lemma_repeats_are_tallied(
    m: Map<u64, Burst>,
    key: u64,
    now: u64,
    lines: Seq<(u64, u64)>,
    later: u64,
)
    requires
        !is_repeat(bounded(m), key, now),
        forall|i: int|
            0 <= i < lines.len() && (#[trigger] lines[i]).0 == key ==> now <= lines[i].1 < now
                + DEDUP_WINDOW_MS,
        now + DEDUP_WINDOW_MS <= later,
        times_of(lines, key) <= u32::MAX,
        never_full(remembered(bounded(m), key, now), lines),
    ensures
        ({
            let first = remembered(bounded(m), key, now);
            let last = bounded(remembered_all(first, lines));
            &&& forall|i: int|
                0 <= i < lines.len() && (#[trigger] lines[i]).0 == key ==> is_repeat(
                    bounded(remembered_all(first, lines.take(i))),
                    key,
                    lines[i].1,
                )
            &&& !is_repeat(last, key, later)
            &&& tally(last, key) == times_of(lines, key)
        }),
{
    let first = remembered(bounded(m), key, now);
    assert forall|i: int| 0 <= i < lines.len() && (#[trigger] lines[i]).0 == key implies is_repeat(
        bounded(remembered_all(first, lines.take(i))),
        key,
        lines[i].1,
    ) by {
        lemma_burst_lasts(first, key, now, lines, i);
    }
    lemma_burst_lasts(first, key, now, lines, lines.len() as int);
    assert(lines.take(lines.len() as int) =~= lines);
}

/// Within the window the burst of a line stays the one that began it, and counts the repeats.
proof fn lemma_burst_lasts(
    first: Map<u64, Burst>,
    key: u64,
    now: u64,
    lines: Seq<(u64, u64)>,
    n: int,
)
    requires
        0 <= n <= lines.len(),
        first.dom().contains(key),
        first[key] == (Burst { last_ms: now, repeats: 0 }),
        forall|i: int|
            0 <= i < lines.len() && (#[trigger] lines[i]).0 == key ==> now <= lines[i].1 < now
                + DEDUP_WINDOW_MS,
        times_of(lines, key) <= u32::MAX,
        never_full(first, lines),
    ensures
        ({
            let m = remembered_all(first, lines.take(n));
            &&& bounded(m) == m
            &&& m.dom().contains(key)
            &&& m[key].last_ms == now
            &&& m[key].repeats == times_of(lines.take(n), key)
        }),
        times_of(lines.take(n), key) <= u32::MAX,
    decreases n,
{
    lemma_times_grow(lines, key, n);
    assert(remembered_all(first, lines.take(n)).len() <= DEDUP_TRACK);
    if n > 0 {
        lemma_burst_lasts(first, key, now, lines, n - 1);
        assert(lines.take(n).drop_last() =~= lines.take(n - 1));
        assert(lines.take(n).last() == lines[n - 1]);
    }
}

/// A part of some lines holds no more of one than all of them.
proof fn lemma_times_grow(lines: Seq<(u64, u64)>, key: u64, n: int)
    requires
        0 <= n <= lines.len(),
    ensures
        times_of(lines.take(n), key) <= times_of(lines, key),
    decreases lines.len() - n,
{
    if n < lines.len() {
        assert(lines.take(n + 1).drop_last() =~= lines.take(n));
        lemma_times_grow(lines, key, n + 1);
    } else {
        assert(lines.take(n) =~= lines);
    }
}

/// A burst of one line ends up in the log as one line more: the repeats queue nothing, and the first one
/// after the window is queued with one summary of them all. `logs` is the log before the burst, behind its
/// first line, behind each repeat, and behind the line after the window.
pub proof fn lemma_burst_is_one_summary(
    logs: Seq<Log>,
    file: Seq<char>,
    msg: Seq<char>,
    key: u64,
    stamps: Seq<Seq<char>>,
    times: Seq<u64>,
)
    requires
        times.len() >= 2,
        stamps.len() == times.len(),
        logs.len() == times.len() + 1,
        times.len() - 2 <= u32::MAX,
        forall|i: int|
            0 <= i < times.len() ==> logged(
                #[trigger] logs[i],
                logs[i + 1],
                file,
                msg,
                key,
                stamps[i],
                times[i],
            ),
        !is_repeat(bounded(logs[0].bursts@), key, times[0]),
        forall|i: int|
            0 < i < times.len() - 1 ==> times[0] <= #[trigger] times[i] < times[0]
                + DEDUP_WINDOW_MS,
        times[0] + DEDUP_WINDOW_MS <= times.last(),
        logs[1].bursts@.len() <= DEDUP_TRACK,
        logs[1].lines@.len() < QUEUE_CAP,
    ensures
        forall|i: int| 1 <= i < times.len() ==> (#[trigger] logs[i]).lines@ == logs[1].lines@,
        line_views(logs.last().lines@) == line_views(logs[1].lines@).push(
            (file, stamps.last() + msg + tally_text((times.len() - 2) as u32)),
        ),
{
    let n = times.len() as int;
    assert forall|i: int| 1 <= i < n implies (#[trigger] logs[i]).lines@ == logs[1].lines@ by {
        lemma_burst_upto(logs, file, msg, key, stamps, times, i);
    }
    lemma_burst_upto(logs, file, msg, key, stamps, times, n - 1);
    assert(logged(logs[n - 1], logs[n], file, msg, key, stamps[n - 1], times[n - 1]));
}

/// A burst of one line up to its `n`-th call.
proof fn lemma_burst_upto(
    logs: Seq<Log>,
    file: Seq<char>,
    msg: Seq<char>,
    key: u64,
    stamps: Seq<Seq<char>>,
    times: Seq<u64>,
    n: int,
)
    requires
        1 <= n < times.len(),
        stamps.len() == times.len(),
        logs.len() == times.len() + 1,
        times.len() - 2 <= u32::MAX,
        forall|i: int|
            0 <= i < times.len() ==> logged(
                #[trigger] logs[i],
                logs[i + 1],
                file,
                msg,
                key,
                stamps[i],
                times[i],
            ),
        !is_repeat(bounded(logs[0].bursts@), key, times[0]),
        forall|i: int|
            0 < i < times.len() - 1 ==> times[0] <= #[trigger] times[i] < times[0]
                + DEDUP_WINDOW_MS,
        logs[1].bursts@.len() <= DEDUP_TRACK,
    ensures
        logs[n].lines@ == logs[1].lines@,
        bounded(logs[n].bursts@) == logs[n].bursts@,
        logs[n].bursts@.len() == logs[1].bursts@.len(),
        logs[n].bursts@.dom().contains(key),
        logs[n].bursts@[key] == (Burst { last_ms: times[0], repeats: (n - 1) as u32 }),
    decreases n,
{
    if n == 1 {
        assert(logged(logs[0], logs[1], file, msg, key, stamps[0], times[0]));
    } else {
        lemma_burst_upto(logs, file, msg, key, stamps, times, n - 1);
        assert(logged(logs[n - 1], logs[n], file, msg, key, stamps[n - 1], times[n - 1]));
        let before = logs[n - 1].bursts@;
        assert(is_repeat(before, key, times[n - 1]));
        assert(logs[n].bursts@.dom() =~= before.dom());
    }
}

/// Suppressing one line does not touch what is remembered of another.
pub proof fn lemma_lines_are_independent(m: Map<u64, Burst>, key: u64, other: u64, now: u64)
    requires
        key != other,
    ensures
        remembered(m, key, now).dom().contains(other) == m.dom().contains(other),
        m.dom().contains(other) ==> remembered(m, key, now)[other] == m[other],
{
}

/// The memory of written lines stays bounded: one more than the limit at most.
pub proof fn lemma_memory_bounded(m: Map<u64, Burst>, key: u64, now: u64)
    requires
        m.dom().finite(),
    ensures
        remembered(bounded(m), key, now).dom().finite(),
        remembered(bounded(m), key, now).len() <= DEDUP_TRACK + 1,
{
    let b = bounded(m);
    assert(b.dom().finite());
    vstd::set_lib::lemma_len_union(b.dom(), set![key]);
    assert(remembered(b, key, now).dom() =~= b.dom().insert(key));
}

/// How much of a batch goes to `file`.
pub open spec fn text_for(batch: Seq<(Seq<char>, Seq<char>)>, file: Seq<char>) -> Seq<char>
    decreases batch.len(),
{
    if batch.len() == 0 {
        Seq::empty()
    } else if batch.last().0 == file {
        text_for(batch.drop_last(), file) + batch.last().1 + seq!['\n']
    } else {
        text_for(batch.drop_last(), file)
    }
}

/// The text that a group of files holds for `file`.
pub open spec fn held_for(files: Seq<(Seq<char>, Seq<char>)>, file: Seq<char>) -> Seq<char>
    decreases files.len(),
{
    if files.len() == 0 {
        Seq::empty()
    } else if files[0].0 == file {
        files[0].1
    } else {
        held_for(files.drop_first(), file)
    }
}

/// Grouping keeps every line of a file, in order.
pub proof fn lemma_grouping_keeps_lines(batch: Seq<(Seq<char>, Seq<char>)>, file: Seq<char>)
    ensures
        held_for(grouped(batch), file) == text_for(batch, file),
    decreases batch.len(),
{
    if batch.len() > 0 {
        lemma_grouping_keeps_lines(batch.drop_last(), file);
        lemma_add_line(grouped(batch.drop_last()), batch.last().0, batch.last().1, file);
    }
}

proof fn lemma_add_line(
    files: Seq<(Seq<char>, Seq<char>)>,
    at: Seq<char>,
    line: Seq<char>,
    file: Seq<char>,
)
    ensures
        held_for(add_line(files, at, line), file) == (if at == file {
            held_for(files, file) + line + seq!['\n']
        } else {
            held_for(files, file)
        }),
    decreases files.len(),
{
    let next = add_line(files, at, line);
    if files.len() == 0 {
        assert(next.drop_first() =~= files);
        assert(held_for(next.drop_first(), file) == Seq::<char>::empty());
        assert(Seq::<char>::empty() + line + seq!['\n'] =~= line + seq!['\n']);
    } else if files[0].0 == at {
        assert(next.drop_first() =~= files.drop_first());
    } else {
        lemma_add_line(files.drop_first(), at, line, file);
        assert(next.drop_first() =~= add_line(files.drop_first(), at, line));
    }
}

/// A line is a repeat for two seconds after it was written.
pub proof fn lemma_is_repeat(m: Map<u64, Burst>, key: u64, now: u64)
    ensures
        !m.dom().contains(key) ==> !is_repeat(m, key, now),
        m.dom().contains(key) ==> (is_repeat(m, key, now) <==> now < m[key].last_ms + 2000),
        remembered(m, key, now).dom().contains(key),
        is_repeat(m, key, now) ==> remembered(m, key, now)[key].last_ms == m[key].last_ms,
        is_repeat(m, key, now) && m[key].repeats < u32::MAX ==> remembered(m, key, now)[key].repeats
            == m[key].repeats + 1,
        !is_repeat(m, key, now) ==> remembered(m, key, now)[key].last_ms == now && remembered(
            m,
            key,
            now,
        )[key].repeats == 0,
        m.len() <= 256 ==> bounded(m) == m,
        m.len() > 256 ==> bounded(m).dom() == Set::<u64>::empty(),
{
    assert(m.len() > 256 ==> bounded(m).dom() =~= Set::<u64>::empty());
}

/// A line that is no repeat is queued behind its stamp, with how often it was repeated behind it, where
/// fewer than 4096 lines wait; otherwise it is counted as dropped. A repeat is neither.
pub proof fn lemma_logged(
    l: Log,
    r: Log,
    file: Seq<char>,
    msg: Seq<char>,
    key: u64,
    stamp: Seq<char>,
    now: u64,
)
    requires
        logged(l, r, file, msg, key, stamp, now),
        l.bursts@.len() <= 256,
        l.dropped < 1_000_000,
    ensures
        is_repeat(l.bursts@, key, now) ==> r.lines@ == l.lines@ && r.dropped == l.dropped,
        !is_repeat(l.bursts@, key, now) && l.lines@.len() >= 4096 ==> r.lines@ == l.lines@ && r.dropped
            == l.dropped + 1,
        !is_repeat(l.bursts@, key, now) && l.lines@.len() < 4096 ==> {
            &&& r.lines@.len() == l.lines@.len() + 1
            &&& r.dropped == l.dropped
            &&& r.lines@.last().0@ == file
            &&& !l.bursts@.dom().contains(key) || l.bursts@[key].repeats == 0 ==> r.lines@.last().1@
                == stamp + msg
            &&& l.bursts@.dom().contains(key) && l.bursts@[key].repeats > 0 ==> r.lines@.last().1@
                == stamp + msg + ("  (x"@ + dec(l.bursts@[key].repeats as int) + ")"@)
        },
        r.trace_on == l.trace_on,
{
    if !is_repeat(l.bursts@, key, now) && l.lines@.len() < 4096 {
        let v = line_views(r.lines@);
        assert(v.len() == r.lines@.len());
        assert(line_views(l.lines@).len() == l.lines@.len());
        assert(v.last() == (r.lines@.last().0@, r.lines@.last().1@));
        assert(stamp + msg + Seq::<char>::empty() =~= stamp + msg);
    }
}

/// Dropped lines are told of once, in the main log, with their number.
pub proof fn lemma_drop_notice(n: u64, stamp: Seq<char>)
    ensures
        n == 0 ==> drop_notice(n, stamp).len() == 0,
        n > 0 ==> drop_notice(n, stamp).len() == 1 && drop_notice(n, stamp)[0].0
            == "overseer-native.log"@ && drop_notice(n, stamp)[0].1 == stamp + "[log] "@ + dec(n as int)
            + " lines dropped (write queue full)"@,
{
}

} // verus!
