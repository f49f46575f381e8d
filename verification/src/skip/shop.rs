//! Skipping the performances of the scenario shop, and closing what they leave open.

use vstd::prelude::*;

use crate::skip::result::later;
use crate::skip::result::saturating_later;
use crate::text::{has_text, same};
use crate::text::occurs;

verus! {

/// How long, in milliseconds, the dialog of a purchase is waited for.
pub const BUY_CLOSE_MS: u64 = 1000;

/// How many steps of a performance are driven at most.
pub const MAX_STEPS: u32 = 2000;

/// How many dialogs the end of a performance closes at most.
pub const MAX_CLOSES: usize = 2;

/// What is left to do in the shop. Callbacks and targets are 0 for none.
pub struct Shop {
    /// The callbacks of performances that were skipped.
    pub pending: Vec<usize>,
    /// The dialogs of a performance are to be closed.
    pub teardown: bool,
    /// The item list is to be closed.
    pub close_list: bool,
    /// A performance is being driven.
    pub driving: bool,
    pub use_callback: usize,
    pub parts: usize,
    /// Until when the dialog of a purchase, and then the back button, are waited for.
    pub close_buy_until: u64,
    pub press_back_until: u64,
    pub skips: u64,
}

/// Nothing left to do.
pub fn new_shop() -> (r: Shop)
    ensures
        r.pending@.len() == 0,
        !r.teardown,
        !r.close_list,
        !r.driving,
        r.use_callback == 0,
        r.parts == 0,
        r.close_buy_until == 0,
        r.press_back_until == 0,
        r.skips == 0,
{
    Shop {
        pending: Vec::new(),
        teardown: false,
        close_list: false,
        driving: false,
        use_callback: 0,
        parts: 0,
        close_buy_until: 0,
        press_back_until: 0,
        skips: 0,
    }
}

/// Take the callbacks of the performances that were skipped.
pub fn drain_pending(s: &mut Shop) -> (r: Vec<usize>)
    ensures
        r@ == old(s).pending@,
        final(s).pending@.len() == 0,
        *final(s) == (Shop { pending: final(s).pending, ..*old(s) }),
{
    let mut out: Vec<usize> = Vec::new();
    out.append(&mut s.pending);
    out
}

/// The callbacks of a call that are there.
pub open spec fn given(a: usize, b: usize) -> Seq<usize> {
    (if a != 0 {
        seq![a]
    } else {
        Seq::empty()
    }) + (if b != 0 {
        seq![b]
    } else {
        Seq::empty()
    })
}

/// The performance of a purchase begins: whether it is skipped. Its callbacks are kept, and the list is
/// closed afterwards.
pub fn on_shop_perf(s: &mut Shop, acting: bool, cb1: usize, cb2: usize) -> (r: bool)
    ensures
        r == acting,
        !acting ==> *final(s) == *old(s),
        acting ==> {
            &&& final(s).pending@ == old(s).pending@ + given(cb1, cb2)
            &&& *final(s) == (Shop {
                pending: final(s).pending,
                close_list: true,
                skips: old(s).skips.wrapping_add(1),
                ..*old(s)
            })
        },
{
    if !acting {
        return false;
    }
    if cb1 != 0 {
        s.pending.push(cb1);
    }
    if cb2 != 0 {
        s.pending.push(cb2);
    }
    assert(s.pending@ =~= old(s).pending@ + given(cb1, cb2));
    s.close_list = true;
    s.skips = s.skips.wrapping_add(1);
    true
}

/// A purchase was made: wait for its dialog, to close it.
pub fn on_exch_request(s: &mut Shop, acting: bool, now: u64)
    ensures
        *final(s) == (if acting {
            Shop { close_buy_until: later(now, BUY_CLOSE_MS), ..*old(s) }
        } else {
            *old(s)
        }),
{
    if acting {
        s.close_buy_until = saturating_later(now, BUY_CLOSE_MS);
    }
}

/// Whether a button is pressed to leave the shop: the back button, while it is waited for.
pub fn presses_back(s: &Shop, on: bool, name: Option<&str>, ours: bool, now: u64) -> (r: bool)
    ensures
        r == (on && !ours && now < s.press_back_until && (name matches Some(n) && n@
            == "BackButton"@)),
{
    on && !ours && now < s.press_back_until && match name {
        Some(n) => same(n, "BackButton"),
        None => false,
    }
}

/// The back button was pressed, or the click did not land and is tried again.
pub fn on_back_pressed(s: &mut Shop, clicked: bool)
    ensures
        *final(s) == (if clicked {
            Shop { press_back_until: 0, ..*old(s) }
        } else {
            *old(s)
        }),
{
    if clicked {
        s.press_back_until = 0;
    }
}

/// A message of a character comes up: whether it is skipped.
pub fn on_chara_msg(s: &mut Shop, acting: bool) -> (r: bool)
    ensures
        r == acting,
        *final(s) == (if acting {
            Shop { skips: old(s).skips.wrapping_add(1), ..*old(s) }
        } else {
            *old(s)
        }),
{
    if acting {
        s.skips = s.skips.wrapping_add(1);
    }
    acting
}

/// The performance of an item begins: whether it is skipped. The callback at its end, or else the one
/// at its start, is kept, to go on once the dialogs are closed.
pub fn on_use_perf(s: &mut Shop, acting: bool, parts: usize, started: usize, ended: usize) -> (r: bool)
    ensures
        r == acting,
        *final(s) == (if acting {
            Shop {
                use_callback: if ended != 0 {
                    ended
                } else {
                    started
                },
                parts,
                teardown: true,
                skips: old(s).skips.wrapping_add(1),
                ..*old(s)
            }
        } else {
            *old(s)
        }),
{
    if !acting {
        return false;
    }
    s.use_callback = if ended != 0 {
        ended
    } else {
        started
    };
    s.parts = parts;
    s.teardown = true;
    s.skips = s.skips.wrapping_add(1);
    true
}

/// A step of a performance runs: whether it is driven to its end at once.
pub fn on_movenext(s: &mut Shop, acting: bool) -> (r: bool)
    ensures
        r == (acting && !old(s).driving),
        *final(s) == (Shop { driving: old(s).driving || r, ..*old(s) }),
{
    if !acting || s.driving {
        return false;
    }
    s.driving = true;
    true
}

/// Whether a performance that is driven gets one more step: it has one, and not too many were made.
pub fn drives_on(more: bool, steps: u32) -> (r: bool)
    ensures
        r == (more && steps <= MAX_STEPS),
{
    more && steps <= MAX_STEPS
}

/// A performance was driven to its end; the list is closed afterwards.
pub fn on_driven(s: &mut Shop)
    ensures
        *final(s) == (Shop { driving: false, close_list: true, ..*old(s) }),
{
    s.driving = false;
    s.close_list = true;
}

/// Whether the dialog in front is closed: there is one, and it is a dialog.
pub open spec fn closes(class: Option<Seq<char>>) -> bool {
    class is Some && occurs(class->0, "Dialog"@)
}

/// Whether the dialog in front is closed. `class` is its class, where there is one.
pub fn shop_close_item_list(class: Option<&str>) -> (r: bool)
    ensures
        r == closes(
            match class {
                Some(c) => Some(c@),
                None => None,
            },
        ),
{
    match class {
        Some(c) => has_text(c, "Dialog"),
        None => false,
    }
}

/// Whether the end of a performance closes the dialog in front, after `closed` of them: it closes no
/// more than it opened, and stops at anything that is no dialog.
pub fn closes_on(closed: usize, class: Option<&str>) -> (r: bool)
    ensures
        r == (closed < MAX_CLOSES && closes(
            match class {
                Some(c) => Some(c@),
                None => None,
            },
        )),
{
    closed < MAX_CLOSES && shop_close_item_list(class)
}

/// The dialogs of a performance were closed. Returns the callback to go on with; 0 for none.
pub fn shop_teardown(s: &mut Shop) -> (r: usize)
    ensures
        r == old(s).use_callback,
        *final(s) == (Shop { use_callback: 0, parts: 0, teardown: false, ..*old(s) }),
{
    let cb: usize = s.use_callback;
    s.use_callback = 0;
    s.parts = 0;
    s.teardown = false;
    cb
}

/// No callback of a skipped performance is lost, and nothing else is called in its place: what is
/// queued are the callbacks that are there, the first one first.
pub proof fn lemma_callbacks_kept(a: usize, b: usize)
    ensures
        a != 0 && b != 0 ==> given(a, b) == seq![a, b],
        a != 0 && b == 0 ==> given(a, b) == seq![a],
        a == 0 && b != 0 ==> given(a, b) == seq![b],
        a == 0 && b == 0 ==> given(a, b) == Seq::<usize>::empty(),
{
    assert(seq![a] + seq![b] =~= seq![a, b]);
    assert(seq![a] + Seq::<usize>::empty() =~= seq![a]);
    assert(Seq::<usize>::empty() + seq![b] =~= seq![b]);
    assert(Seq::<usize>::empty() + Seq::<usize>::empty() =~= Seq::<usize>::empty());
}

/// What closes is what is called a dialog.
pub proof fn lemma_closes(class: Option<Seq<char>>)
    ensures
        class is None ==> !closes(class),
        class matches Some(c) ==> (closes(class) <==> occurs(c, "Dialog"@)),
{
}

} // verus!
