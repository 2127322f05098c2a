use vstd::prelude::*;

verus! {

/// A short message shown for a number of frames.
#[derive(Clone, Debug)]
pub struct ExpiringMessage {
    pub text: String,
    /// Frames left before the message disappears.
    pub lifetime: u32,
}

/// The messages (text, frames left) after one frame: each counted down,
/// and those that reach zero dropped, in order; texts are kept.
pub open spec fn aged(ls: Seq<(Seq<char>, u32)>) -> Seq<(Seq<char>, u32)>
    decreases ls.len(),
{
    if ls.len() == 0 {
        Seq::empty()
    } else {
        let prev = aged(ls.drop_last());
        if ls.last().1 > 1 {
            prev.push((ls.last().0, (ls.last().1 - 1) as u32))
        } else {
            prev
        }
    }
}

/// Each message as its text and the frames it has left.
pub open spec fn message_views(ms: Seq<ExpiringMessage>) -> Seq<(Seq<char>, u32)> {
    ms.map_values(|m: ExpiringMessage| (m.text@, m.lifetime))
}

/// Counts every message down by a frame and drops the expired ones.
pub fn step_alerts(expiring_messages: &mut Vec<ExpiringMessage>)
    ensures
        message_views(final(expiring_messages)@) == aged(message_views(old(expiring_messages)@)),
{
    let ghost start = message_views(expiring_messages@);
    let mut kept: Vec<ExpiringMessage> = Vec::new();
    let mut i: usize = 0;
    while i < expiring_messages.len()
        invariant
            i <= expiring_messages@.len(),
            start == message_views(expiring_messages@),
            message_views(kept@) == aged(start.take(i as int)),
        decreases expiring_messages@.len() - i,
    {
        let lifetime = expiring_messages[i].lifetime;
        assert(start.take(i + 1).drop_last() == start.take(i as int));
        assert(start.take(i + 1).last().1 == lifetime);
        if lifetime > 1 {
            let text = expiring_messages[i].text.clone();
            let ghost before = kept@;
            kept.push(ExpiringMessage { text, lifetime: lifetime - 1 });
            assert(message_views(kept@) =~= message_views(before).push(
                (start[i as int].0, (lifetime - 1) as u32),
            ));
        }
        i = i + 1;
    }
    assert(start.take(start.len() as int) == start);
    *expiring_messages = kept;
}

} // verus!
