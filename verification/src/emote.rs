use vstd::prelude::*;

verus! {

/// The kinds of emote a player can send.
#[derive(Clone, Copy, Debug, PartialEq, Eq, Structural)]
pub enum EmoteKind {
    /// A greeting, with the sender's greeting variant (by index).
    Hi(u8),
    Dance,
    Wave,
    Hug,
    HighFive,
    Applaud,
}

/// An emote as it travels between players: its kind and, for a targeted
/// emote, the address hash of the player it is aimed at.
#[derive(Clone, Copy, Debug)]
pub struct EmoteMessage {
    pub kind: EmoteKind,
    pub target: Option<[u8; 16]>,
}

/// The outcome of trying to fire an emote.
#[derive(Clone, Copy, Debug)]
pub enum EmoteFireResult {
    /// Fired and broadcast; `cooldown_ms` is the longest cooldown that now
    /// applies to this kind.
    Success { cooldown_ms: u64 },
    /// A cooldown blocked the emote; it can fire again in `remaining_ms`.
    Cooldown { remaining_ms: u64 },
    /// The kind needs a target and none was given or in range.
    NoTarget,
    /// The target is blocked by this player.
    TargetBlocked,
}

/// The target of a received emote as the receiver treats it. A dance is
/// always a broadcast, whatever target the sender wired; every other kind
/// keeps its target.
pub fn effective_receive_target(emote: &EmoteMessage) -> (r: Option<[u8; 16]>)
    ensures
        r == (if emote.kind is Dance {
            None
        } else {
            emote.target
        }),
{
    match emote.kind {
        EmoteKind::Dance => None,
        _ => emote.target,
    }
}

/// Whether a kind needs a player to aim at: a hug or a high five does.
pub open spec fn needs_target(kind: EmoteKind) -> bool {
    kind is Hug || kind is HighFive
}

/// The refusal, if any, of firing `kind` at `target` before any cooldown is
/// looked at: a hug or a high five without a target is refused; every other
/// emote, including a wave to the whole street, may go on.
pub fn target_refusal(kind: &EmoteKind, target: Option<[u8; 16]>) -> (r: Option<EmoteFireResult>)
    ensures
        r == (if needs_target(*kind) && target is None {
            Some(EmoteFireResult::NoTarget)
        } else {
            None
        }),
{
    match kind {
        EmoteKind::Hug | EmoteKind::HighFive => {
            if target.is_none() {
                return Some(EmoteFireResult::NoTarget);
            }
            None
        },
        _ => None,
    }
}

/// Whether a received emote is let through to its effects, before privacy,
/// range and cooldowns are looked at: a hug or a high five with no
/// (effective) target is malformed; an emote aimed at someone else is not
/// ours, unless it is an applause, whose bystanders still watch; and
/// nothing from a blocked sender is taken.
pub open spec fn receive_admitted(emote: EmoteMessage, ours: [u8; 16], sender_blocked: bool) -> bool {
    let target = if emote.kind is Dance {
        None
    } else {
        emote.target
    };
    &&& !(needs_target(emote.kind) && target is None)
    &&& !(target is Some && target != Some(ours) && !(emote.kind is Applaud))
    &&& !sender_blocked
}

/// What an admitted emote is: never from a blocked sender; a hug or a high
/// five is aimed at this player; and an emote (not a dance) aimed at some
/// other player is let through only when it is an applause.
pub proof fn lemma_admitted_is_ours(emote: EmoteMessage, ours: [u8; 16], sender_blocked: bool)
    requires
        receive_admitted(emote, ours, sender_blocked),
    ensures
        !sender_blocked,
        (emote.kind is Hug || emote.kind is HighFive) ==> emote.target == Some(ours),
        !(emote.kind is Dance) && emote.target is Some && emote.target != Some(ours) ==> emote.kind is Applaud,
{
}

/// Whether a received emote is let through (see `receive_admitted`).
pub fn admits_received_emote(emote: &EmoteMessage, ours: [u8; 16], sender_blocked: bool) -> (b: bool)
    ensures
        b == receive_admitted(*emote, ours, sender_blocked),
{
    let target = effective_receive_target(emote);
    let needs = match emote.kind {
        EmoteKind::Hug | EmoteKind::HighFive => true,
        _ => false,
    };
    if needs && target.is_none() {
        return false;
    }
    let ours_targeted = match target {
        Some(t) => crate::social::types::addr_eq(&t, &ours),
        None => false,
    };
    let applaud = match emote.kind {
        EmoteKind::Applaud => true,
        _ => false,
    };
    if target.is_some() && !ours_targeted && !applaud {
        return false;
    }
    !sender_blocked
}

} // verus!
