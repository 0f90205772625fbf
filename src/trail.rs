use vstd::prelude::*;

use crate::config::MAX_PATH_LENGTH;

verus! {

/// The newest `MAX_PATH_LENGTH` entries of `s`, oldest first.
pub open spec fn keep_newest<T>(s: Seq<T>) -> Seq<T> {
    if s.len() > MAX_PATH_LENGTH {
        s.subrange(s.len() - MAX_PATH_LENGTH, s.len() as int)
    } else {
        s
    }
}

/// The bounded history of a walker's positions, oldest first.
///
/// A trail is never empty (it starts with the spawn position) and never holds
/// more than `MAX_PATH_LENGTH` entries: the oldest are dropped first.
pub struct Trail<T> {
    points: Vec<T>,
}

impl<T> View for Trail<T> {
    type V = Seq<T>;

    closed spec fn view(&self) -> Seq<T> {
        self.points@
    }
}

impl<T> Trail<T> {
    /// Holds `1 <= self@.len() <= MAX_PATH_LENGTH`.
    pub closed spec fn wf(&self) -> bool {
        1 <= self.points@.len() <= MAX_PATH_LENGTH
    }

    /// A trail that holds only `start`.
    pub fn new(start: T) -> (r: Self)
        ensures
            r.wf(),
            r@ == seq![start],
    {
        let mut points: Vec<T> = Vec::new();
        points.push(start);
        Trail { points }
    }

    /// Appends `point` as the newest entry, dropping the oldest one when the
    /// trail is full.
    pub fn push(&mut self, point: T)
        requires
            old(self).wf(),
        ensures
            final(self).wf(),
            final(self)@ == keep_newest(old(self)@.push(point)),
            final(self)@.len() <= MAX_PATH_LENGTH,
            final(self)@.last() == point,
    {
        if self.points.len() >= MAX_PATH_LENGTH {
            self.points.remove(0);
        }
        self.points.push(point);
        proof {
            let s = old(self)@.push(point);
            if s.len() > MAX_PATH_LENGTH {
                assert(self.points@ =~= s.subrange(s.len() - MAX_PATH_LENGTH, s.len() as int));
            } else {
                assert(self.points@ =~= s);
            }
        }
    }

    /// The number of entries.
    pub fn len(&self) -> (r: usize)
        requires
            self.wf(),
        ensures
            r == self@.len(),
            1 <= r <= MAX_PATH_LENGTH,
    {
        self.points.len()
    }

    /// The newest entry.
    pub fn last(&self) -> (r: &T)
        requires
            self.wf(),
        ensures
            *r == self@.last(),
    {
        &self.points[self.points.len() - 1]
    }

    /// The entries, oldest first.
    pub fn points(&self) -> (r: &[T])
        ensures
            r@ == self@,
    {
        self.points.as_slice()
    }
}

} // verus!
