//! Watching the scene until the title screen is left.

use vstd::prelude::*;

use crate::text::same;

verus! {

/// How many looks are taken at most.
pub const MAX_LOOKS: u64 = 3000;

/// What the probe remembers.
pub struct Probe {
    pub is_title: bool,
    pub last: String,
    pub looks: u64,
    pub seen_title: bool,
}

/// What a look brought.
#[derive(Clone, Copy, PartialEq, Eq, Structural, Debug)]
pub enum Sight {
    /// Keep looking.
    Watching,
    /// The title screen was left.
    LeftTitle,
    /// It was never seen to be left.
    TimedOut,
}

/// Nothing seen yet.
pub fn new_probe() -> (r: Probe)
    ensures
        !r.is_title,
        r.last@ == ""@,
        r.looks == 0,
        !r.seen_title,
{
    Probe { is_title: false, last: "".to_owned(), looks: 0, seen_title: false }
}

/// Whether the title screen is on.
pub fn is_title(p: &Probe) -> (r: bool)
    ensures
        r == p.is_title,
{
    p.is_title
}

/// What a look at a scene brings.
pub open spec fn sight_of(p: Probe, name: Seq<char>) -> Sight {
    if (p.seen_title || name == "Title"@) && name != "Title"@ && name.len() > 0 {
        Sight::LeftTitle
    } else if p.looks.wrapping_add(1) > MAX_LOOKS {
        Sight::TimedOut
    } else {
        Sight::Watching
    }
}

/// Look at the scene. Returns whether it is another one than before, and what the look brought.
pub fn observe(p: &mut Probe, name: &str) -> (r: (bool, Sight))
    ensures
        r.0 == (name@ != old(p).last@),
        r.1 == sight_of(*old(p), name@),
        final(p).last@ == name@,
        final(p).looks == old(p).looks.wrapping_add(1),
        final(p).seen_title == (old(p).seen_title || name@ == "Title"@),
        final(p).is_title == (name@ == "Title"@ && r.1 == Sight::Watching),
{
    let title: bool = same(name, "Title");
    p.is_title = title;
    let changed: bool = !same(name, p.last.as_str());
    p.last = name.to_owned();
    if title {
        p.seen_title = true;
    }
    p.looks = p.looks.wrapping_add(1);
    let left: bool = p.seen_title && !title && name.unicode_len() > 0;
    if left || p.looks > MAX_LOOKS {
        p.is_title = false;
        if left {
            return (changed, Sight::LeftTitle);
        }
        return (changed, Sight::TimedOut);
    }
    (changed, Sight::Watching)
}

/// The probe ends: once the title screen was seen, any named scene but it ends the watch, and so does
/// the last look.
pub proof fn lemma_probe_ends(p: Probe, name: Seq<char>)
    requires
        p.looks <= MAX_LOOKS,
    ensures
        p.seen_title && name != "Title"@ && name.len() > 0 ==> sight_of(p, name) == Sight::LeftTitle,
        p.looks == MAX_LOOKS ==> sight_of(p, name) != Sight::Watching,
{
}

/// The title has been left once it was seen and another screen is named; after 3000 looks the watch ends.
pub proof fn lemma_sight(p: Probe, name: Seq<char>)
    requires
        p.looks < u64::MAX,
    ensures
        p.seen_title && name.len() > 0 && name != "Title"@ ==> sight_of(p, name) is LeftTitle,
        !p.seen_title || name.len() == 0 || name == "Title"@ ==> (if p.looks >= 3000 {
            sight_of(p, name) is TimedOut
        } else {
            sight_of(p, name) is Watching
        }),
{
}

} // verus!
