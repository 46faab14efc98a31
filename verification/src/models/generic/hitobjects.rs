//! The notes of the canonical chart.

use vstd::prelude::*;
use crate::models::common::{Key, KeyType};
use crate::models::generic::sound::KeySound;
use crate::models::ordered::{
    insert_sorted, same_order_per_time, times_sorted, upper_bound, Timed,
};

verus! {

/// One note event: when, at which beat (in ticks), in which lane (counted
/// from 1), of which kind, with which sound.
#[derive(Debug, Clone, Copy, PartialEq, Eq, Structural)]
pub struct HitObject {
    pub time: i32,
    pub beat: i64,
    pub keysound: KeySound,
    pub key: Key,
    pub lane: u8,
}

impl Timed for HitObject {
    open spec fn time_of(&self) -> int {
        self.time as int
    }

    fn time(&self) -> (t: i64) {
        self.time as i64
    }
}

#[derive(Debug, Clone)]
pub struct HitObjects {
    pub objects: Vec<HitObject>,
}

impl HitObjects {
    pub fn with_capacity(capacity: usize) -> (h: Self)
        ensures
            h.objects@.len() == 0,
    {
        Self { objects: Vec::with_capacity(capacity) }
    }

    pub fn new(objects: Vec<HitObject>) -> (h: Self)
        ensures
            h.objects == objects,
    {
        Self { objects }
    }

    /// Appends a note. An `Empty` key is a placeholder of the grid and never
    /// enters the list.
    pub fn add_hitobject(&mut self, time: i32, beat: i64, keysound: KeySound, key: Key, lane: u8)
        ensures
            final(self).objects@ == if key.key_type == KeyType::Empty {
                old(self).objects@
            } else {
                old(self).objects@.push(HitObject { time, beat, keysound, key, lane })
            },
    {
        if key.key_type == KeyType::Empty {
            return ;
        }
        self.objects.push(HitObject { time, beat, keysound, key, lane });
    }

    /// Inserts a note by binary search on time. A sorted list stays sorted and
    /// the note follows all the notes it ties with.
    pub fn add_hitobject_sorted(&mut self, object: HitObject)
        ensures
            exists|p: int|
                0 <= p <= old(self).objects@.len() && final(self).objects@ == old(
                    self,
                ).objects@.insert(p, object),
            times_sorted(old(self).objects@) ==> {
                &&& final(self).objects@ == old(self).objects@.insert(
                    upper_bound(old(self).objects@, object.time as int),
                    object,
                )
                &&& times_sorted(final(self).objects@)
                &&& same_order_per_time(final(self).objects@, old(self).objects@.push(object))
            },
    {
        insert_sorted(&mut self.objects, object);
    }

    pub fn len(&self) -> (n: usize)
        ensures
            n == self.objects@.len(),
    {
        self.objects.len()
    }

    /// The note at `index`, if there is one.
    pub fn get(&self, index: usize) -> (h: Option<HitObject>)
        ensures
            h == if index < self.objects@.len() {
                Some(self.objects@[index as int])
            } else {
                None
            },
    {
        if index < self.objects.len() {
            Some(self.objects[index])
        } else {
            None
        }
    }
}

} // verus!
