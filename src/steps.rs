use vstd::prelude::*;

use crate::random::random_range_i32;

verus! {

/// A walk from `start` towards `end` in steps of random size.
///
/// Each step is drawn from `[1, max_step)`; the last one is shortened so that
/// the walk stops exactly at `end`. Every item is the pair of the value before
/// the step and the size of that step.
pub struct RandomStepRange {
    end: i32,
    max_step: i32,
    value: i32,
    step: i32,
}

/// The step actually taken from `value` when `drawn` was drawn: the drawn
/// size, shortened so as not to pass `end`.
pub open spec fn step_taken(value: int, end: int, drawn: int) -> int {
    if value + drawn > end {
        end - value
    } else {
        drawn
    }
}

/// `items` is a complete walk from `start` to `end` with steps in `[1, max_step)`.
pub open spec fn is_walk(items: Seq<(i32, i32)>, start: int, end: int, max_step: int) -> bool {
    &&& (items.len() == 0 <==> start >= end)
    &&& forall|k: int|
        0 <= k < items.len() ==> 1 <= #[trigger] items[k].1 < max_step && items[k].0 < end
    &&& items.len() > 0 ==> items[0].0 == start
    &&& forall|k: int|
        0 < k < items.len() ==> #[trigger] items[k].0 == items[k - 1].0 + items[k - 1].1
    &&& items.len() > 0 ==> items.last().0 + items.last().1 == end
}

impl RandomStepRange {
    /// The value the next item starts from.
    pub closed spec fn value(&self) -> int {
        self.value as int
    }

    /// The value the walk stops at.
    pub closed spec fn end(&self) -> int {
        self.end as int
    }

    /// The exclusive bound on the size of a drawn step.
    pub closed spec fn max_step(&self) -> int {
        self.max_step as int
    }

    /// Either the walk is over, or a step can be drawn from `[1, max_step)`,
    /// which is not empty.
    pub closed spec fn wf(&self) -> bool {
        self.value >= self.end || self.max_step > 1
    }

    /// A walk from `start` to `end`. One that still has steps to take needs
    /// `max_step > 1`, else no step size can be drawn.
    pub fn new(start: i32, end: i32, max_step: i32) -> (r: Self)
        requires
            start < end ==> max_step > 1,
        ensures
            r.wf(),
            r.value() == start,
            r.end() == end,
            r.max_step() == max_step,
    {
        Self { end, max_step, step: 1, value: start }
    }

    /// Takes one step whose drawn size is `drawn`; `None` once the walk has
    /// reached its end.
    pub fn advance(&mut self, drawn: i32) -> (r: Option<(i32, i32)>)
        requires
            old(self).wf(),
            old(self).value() < old(self).end() ==> 1 <= drawn < old(self).max_step(),
        ensures
            final(self).wf(),
            final(self).end() == old(self).end(),
            final(self).max_step() == old(self).max_step(),
            old(self).value() >= old(self).end() ==> r is None && final(self).value()
                == old(self).value(),
            old(self).value() < old(self).end() ==> {
                let s = step_taken(old(self).value(), old(self).end(), drawn as int);
                &&& r == Some((old(self).value() as i32, s as i32))
                &&& final(self).value() == old(self).value() + s
            },
    {
        let return_value = self.value;
        if self.value >= self.end {
            return None;
        }
        self.step = if (return_value as i64) + (drawn as i64) > self.end as i64 {
            self.end - return_value
        } else {
            drawn
        };
        self.value = self.value + self.step;
        Some((return_value, self.step))
    }

    /// Takes one step of a size drawn at random from `[1, max_step)`.
    pub fn next(&mut self) -> (r: Option<(i32, i32)>)
        requires
            old(self).wf(),
        ensures
            final(self).wf(),
            final(self).end() == old(self).end(),
            final(self).max_step() == old(self).max_step(),
            old(self).value() >= old(self).end() ==> r is None && final(self).value()
                == old(self).value(),
            old(self).value() < old(self).end() ==> match r {
                Some((v, step)) => {
                    &&& v == old(self).value()
                    &&& 1 <= step < old(self).max_step()
                    &&& v + step <= old(self).end()
                    &&& final(self).value() == v + step
                },
                None => false,
            },
    {
        if self.value >= self.end {
            return None;
        }
        let drawn = random_range_i32(1, self.max_step);
        self.advance(drawn)
    }

    /// Every remaining item of the walk, in order.
    pub fn collect(self) -> (r: Vec<(i32, i32)>)
        requires
            self.wf(),
        ensures
            is_walk(r@, self.value(), self.end(), self.max_step()),
    {
        let ghost start = self.value();
        let mut range = self;
        let mut items: Vec<(i32, i32)> = Vec::new();
        loop
            invariant
                range.wf(),
                range.end() == self.end(),
                range.max_step() == self.max_step(),
                items@.len() == 0 ==> range.value() == start,
                items@.len() > 0 ==> {
                    &&& start < self.end()
                    &&& items@[0].0 == start
                    &&& items@.last().0 + items@.last().1 == range.value()
                    &&& range.value() <= self.end()
                },
                forall|k: int|
                    0 <= k < items@.len() ==> 1 <= #[trigger] items@[k].1 < self.max_step()
                        && items@[k].0 < self.end(),
                forall|k: int|
                    0 < k < items@.len() ==> #[trigger] items@[k].0 == items@[k - 1].0
                        + items@[k - 1].1,
            ensures
                range.value() >= self.end(),
            decreases self.end() - range.value(),
        {
            match range.next() {
                Some(item) => {
                    items.push(item);
                },
                None => {
                    break ;
                },
            }
        }
        items
    }
}

} // verus!
