//! Under which name the library was loaded, and what it stands in for.

use vstd::prelude::*;

use crate::text::{has_text, lower};
use crate::text::{lowered, occurs};

verus! {

/// What the library stands in for.
#[derive(Clone, Copy, PartialEq, Eq, Structural, Debug)]
pub enum Identity {
    /// The video codec `cri_mana_vpx.dll`.
    Codec,
    /// `UnityPlayer.dll`.
    Player,
    /// Nothing: it was loaded under a name of its own.
    Own,
}

/// What the library stands in for under a file name.
pub open spec fn identity_of(name: Seq<char>) -> Identity {
    if occurs(lowered(name), "cri_mana_vpx"@) {
        Identity::Codec
    } else if occurs(lowered(name), "unityplayer"@) {
        Identity::Player
    } else {
        Identity::Own
    }
}

/// What the library stands in for under a file name.
pub fn identity(name: &str) -> (r: Identity)
    ensures
        r == identity_of(name@),
{
    let n: String = lower(name);
    if has_text(n.as_str(), "cri_mana_vpx") {
        Identity::Codec
    } else if has_text(n.as_str(), "unityplayer") {
        Identity::Player
    } else {
        Identity::Own
    }
}

/// The file that the genuine library was moved to.
pub fn real_file(id: Identity) -> (r: Option<&'static str>)
    ensures
        (match id {
            Identity::Codec => r is Some && (r->0)@ == "cri_mana_vpx_orig.dll"@,
            Identity::Player => r is Some && (r->0)@ == "UnityPlayer_orig.dll"@,
            Identity::Own => r is None,
        }),
{
    match id {
        Identity::Codec => Some("cri_mana_vpx_orig.dll"),
        Identity::Player => Some("UnityPlayer_orig.dll"),
        Identity::Own => None,
    }
}

/// The library stands in for the codec or the player where its file name says so, in any letter case, the
/// codec first.
pub proof fn lemma_identity(name: Seq<char>)
    ensures
        identity_of(name) is Codec <==> occurs(lowered(name), "cri_mana_vpx"@),
        identity_of(name) is Player <==> occurs(lowered(name), "unityplayer"@) && !occurs(
            lowered(name),
            "cri_mana_vpx"@,
        ),
        identity_of(name) is Own <==> !occurs(lowered(name), "unityplayer"@) && !occurs(
            lowered(name),
            "cri_mana_vpx"@,
        ),
{
}

} // verus!
