//! The shared playlist's decision rules. The jukebox's real-time loop
//! receives remove, add and move requests over its transport; what each
//! request does to the playlist — and when it is refused — is decided
//! here, on plain values, so every connected client and the player apply
//! the same rule.

use vstd::prelude::*;
use crate::info::YtVideoPageInfo;

verus! {

/// One entry of the shared playlist.
#[derive(Debug, Clone)]
pub struct Video {
    pub id: String,
    pub title: String,
    pub thumbnail: String,
    pub author: String,
    pub duration: String,
}

impl PartialEq for Video {
    fn eq(&self, other: &Self) -> (r: bool) {
        self.id == other.id && self.title == other.title && self.thumbnail == other.thumbnail
            && self.author == other.author && self.duration == other.duration
    }
}

impl vstd::std_specs::cmp::PartialEqSpecImpl for Video {
    open spec fn obeys_eq_spec() -> bool {
        true
    }

    open spec fn eq_spec(&self, other: &Self) -> bool {
        self.id@ == other.id@ && self.title@ == other.title@ && self.thumbnail@
            == other.thumbnail@ && self.author@ == other.author@ && self.duration@
            == other.duration@
    }
}

impl Eq for Video {

}

impl Video {
    /// The playlist entry a search summary stands for.
    pub fn of_info(info: &YtVideoPageInfo) -> (r: Video)
        ensures
            r.id@ == info.id@,
            r.title@ == info.title@,
            r.thumbnail@ == info.thumbnail@,
            r.author@ == info.author.name@,
            r.duration@ == info.duration@,
    {
        Video {
            id: info.id.clone(),
            title: info.title.clone(),
            thumbnail: info.thumbnail.clone(),
            author: info.author.name.clone(),
            duration: info.duration.clone(),
        }
    }
}

/// Append a video to the playlist.
pub fn playlist_add(list: &mut Vec<Video>, v: Video)
    ensures
        final (list)@ == old(list)@.push(v),
{
    list.push(v);
}

/// Remove the video at an index, but only when that index really holds
/// the named video: a stale request — the list changed since the client
/// looked — is refused and changes nothing.
pub fn playlist_remove(list: &mut Vec<Video>, index: usize, id: &String) -> (ok: bool)
    ensures
        ok == (index < old(list)@.len() && old(list)@[index as int].id@ == id@),
        ok ==> final (list)@ == old(list)@.remove(index as int),
        !ok ==> final (list)@ == old(list)@,
{
    if index < list.len() && list[index].id == *id {
        let _ = list.remove(index);
        true
    } else {
        false
    }
}

/// Advance past the playing entry: drop the head of a non-empty
/// playlist; an empty one stays empty.
pub fn playlist_next(list: &mut Vec<Video>) -> (ok: bool)
    ensures
        ok == (old(list)@.len() > 0),
        ok ==> final (list)@ == old(list)@.drop_first(),
        !ok ==> final (list)@ == old(list)@,
{
    if list.len() > 0 {
        let _ = list.remove(0);
        proof {
            assert(old(list)@.remove(0) =~= old(list)@.drop_first());
        }
        true
    } else {
        false
    }
}

/// Move the video at an index by a signed offset, exchanging it with the
/// entry there, but only when the index really holds the named video and
/// the target lies inside the list; otherwise nothing changes.
pub fn playlist_move(list: &mut Vec<Video>, index: usize, id: &String, delta: i32) -> (ok: bool)
    ensures
        ok == (index < old(list)@.len() && old(list)@[index as int].id@ == id@ && 0 <= index
            + delta < old(list)@.len()),
        ok ==> final (list)@ == old(list)@.update(
            index as int,
            old(list)@[index + delta],
        ).update(index + delta, old(list)@[index as int]),
        !ok ==> final (list)@ == old(list)@,
{
    if index >= list.len() {
        return false;
    }
    if !(list[index].id == *id) {
        return false;
    }
    let target_ok: bool = if delta >= 0 {
        (delta as usize) < list.len() - index
    } else {
        let mag = -(delta as i64);
        (mag as usize) <= index
    };
    if !target_ok {
        return false;
    }
    let target: usize = if delta >= 0 {
        index + (delta as usize)
    } else {
        index - ((-(delta as i64)) as usize)
    };
    if target == index {
        proof {
            assert(list@.update(index as int, list@[index as int]).update(
                index as int,
                list@[index as int],
            ) =~= list@);
        }
        return true;
    }
    let lo: usize = if index < target {
        index
    } else {
        target
    };
    let hi: usize = if index < target {
        target
    } else {
        index
    };
    let ghost pre = list@;
    let vhi = list.remove(hi);
    let vlo = list.remove(lo);
    list.insert(lo, vhi);
    list.insert(hi, vlo);
    proof {
        assert(list@ =~= pre.update(lo as int, pre[hi as int]).update(hi as int, pre[lo as int]));
        assert(pre.update(lo as int, pre[hi as int]).update(hi as int, pre[lo as int])
            =~= pre.update(index as int, pre[index + delta]).update(
            index + delta,
            pre[index as int],
        ));
    }
    true
}

} // verus!
