use vstd::prelude::*;

verus! {

/// Where a place ends up once a feature is inserted at `at`: places from
/// `at` on move up by one.
pub open spec fn shifted_place(place: usize, at: usize) -> int {
    if place >= at {
        place + 1
    } else {
        place as int
    }
}

/// Whether `after` holds the places of `before`, each moved as an insertion
/// at `at` moves it, followed by `at` itself if `extended`.
pub open spec fn places_shifted(
    before: Seq<usize>,
    after: Seq<usize>,
    at: usize,
    extended: bool,
) -> bool {
    &&& after.len() == before.len() + if extended {
        1int
    } else {
        0int
    }
    &&& forall|k: int| 0 <= k < before.len() ==> #[trigger] after[k] == shifted_place(before[k], at)
    &&& extended ==> after[before.len() as int] == at
}

/// A record of the redundant features of a dataset: for each feature that
/// served as a source, the places at which its copies now stand.
pub struct RedundancyMap {
    sources: Vec<usize>,
    places: Vec<Vec<usize>>,
}

impl RedundancyMap {
    /// The source features in the order in which they were registered.
    pub closed spec fn sources(&self) -> Seq<usize> {
        self.sources@
    }

    /// The places of the copies, source by source.
    pub closed spec fn places(&self) -> Seq<Seq<usize>> {
        Seq::new(self.places.len() as nat, |i: int| self.places[i]@)
    }

    /// Whether every recorded place is at most `limit`.
    pub open spec fn bounded_by(&self, limit: int) -> bool {
        forall|i: int, k: int|
            0 <= i < self.places().len() && 0 <= k < self.places()[i].len() ==> (
            #[trigger] self.places()[i][k]) <= limit
    }

    /// The invariant: one list of places per source, and no source twice.
    pub open spec fn wf(&self) -> bool {
        &&& self.places().len() == self.sources().len()
        &&& self.sources().no_duplicates()
    }

    /// A record without sources.
    pub fn new() -> (map: RedundancyMap)
        ensures
            map.wf(),
            map.sources().len() == 0,
    {
        RedundancyMap { sources: Vec::new(), places: Vec::new() }
    }

    /// The position of `source` among the registered sources, if it is one.
    pub fn find(&self, source: usize) -> (found: Option<usize>)
        ensures
            match found {
                Some(i) => i < self.sources().len() && self.sources()[i as int] == source,
                None => !self.sources().contains(source),
            },
    {
        let mut i: usize = 0;
        while i < self.sources.len()
            invariant
                i <= self.sources.len(),
                forall|j: int| 0 <= j < i ==> self.sources[j] != source,
            decreases self.sources.len() - i,
        {
            if self.sources[i] == source {
                return Some(i);
            }
            i = i + 1;
        }
        None
    }

    /// Registers `source` with no copies yet. A source that is registered
    /// already keeps its places.
    pub fn register(&mut self, source: usize)
        requires
            old(self).wf(),
        ensures
            final(self).wf(),
            old(self).sources().contains(source) ==> final(self).sources() == old(self).sources()
                && final(self).places() == old(self).places(),
            !old(self).sources().contains(source) ==> final(self).sources() == old(self).sources().push(
                source,
            ) && final(self).places() == old(self).places().push(Seq::empty()),
    {
        let found: Option<usize> = self.find(source);
        if found.is_none() {
            self.sources.push(source);
            self.places.push(Vec::new());
            assert(self.places() =~= old(self).places().push(Seq::empty()));
        }
    }

    /// Whether `place` is on record for some source.
    pub open spec fn on_record(&self, place: usize) -> bool {
        exists|i: int, k: int|
            0 <= i < self.places().len() && 0 <= k < self.places()[i].len() && (
            #[trigger] self.places()[i][k]) == place
    }

    /// The largest place on record, or 0 if there is none.
    pub fn largest(&self) -> (limit: usize)
        ensures
            self.bounded_by(limit as int),
            limit == 0 || self.on_record(limit),
    {
        let mut limit: usize = 0;
        let mut i: usize = 0;
        while i < self.places.len()
            invariant
                i <= self.places.len(),
                limit == 0 || self.on_record(limit),
                forall|j: int, k: int|
                    0 <= j < i && 0 <= k < self.places[j].len() ==> (#[trigger] self.places[j][k])
                        <= limit,
            decreases self.places.len() - i,
        {
            let mut k: usize = 0;
            while k < self.places[i].len()
                invariant
                    i < self.places.len(),
                    k <= self.places[i as int].len(),
                    limit == 0 || self.on_record(limit),
                    forall|j: int, l: int|
                        0 <= j < i && 0 <= l < self.places[j].len() ==> (
                        #[trigger] self.places[j][l]) <= limit,
                    forall|l: int| 0 <= l < k ==> (#[trigger] self.places[i as int][l]) <= limit,
                decreases self.places[i as int].len() - k,
            {
                if self.places[i][k] > limit {
                    limit = self.places[i][k];
                    assert(self.places()[i as int][k as int] == limit);
                }
                k = k + 1;
            }
            i = i + 1;
        }
        limit
    }

    /// Records that a copy of `source` was inserted at place `input_index`:
    /// every place on record from `input_index` on moves up by one, and
    /// `input_index` joins the places of `source`.
    pub fn record(&mut self, source: usize, input_index: usize)
        requires
            old(self).wf(),
            old(self).sources().contains(source),
            old(self).bounded_by(usize::MAX - 1),
        ensures
            final(self).wf(),
            final(self).sources() == old(self).sources(),
            forall|i: int|
                0 <= i < old(self).sources().len() ==> places_shifted(
                    old(self).places()[i],
                    #[trigger] final(self).places()[i],
                    input_index,
                    old(self).sources()[i] == source,
                ),
    {
        let mut i: usize = 0;
        while i < self.places.len()
            invariant
                i <= self.places.len(),
                old(self).wf(),
                old(self).bounded_by(usize::MAX - 1),
                self.places.len() == old(self).places.len(),
                self.sources == old(self).sources,
                forall|j: int| i <= j < self.places.len() ==> #[trigger] self.places[j] == old(self).places[j],
                forall|j: int|
                    0 <= j < i ==> places_shifted(
                        old(self).places[j]@,
                        (#[trigger] self.places[j])@,
                        input_index,
                        old(self).sources[j] == source,
                    ),
            decreases self.places.len() - i,
        {
            let ghost before = self.places@;
            let ghost earlier = old(self).places[i as int]@;
            assert(earlier == old(self).places()[i as int]);
            assert forall|l: int| 0 <= l < earlier.len() implies (#[trigger] earlier[l]) <= usize::MAX
                - 1 by {
                assert(old(self).places()[i as int][l] <= usize::MAX - 1);
            }
            let mut places: Vec<usize> = Vec::new();
            std::mem::swap(&mut self.places[i], &mut places);
            let mut k: usize = 0;
            while k < places.len()
                invariant
                    k <= places.len(),
                    places.len() == earlier.len(),
                    forall|l: int| 0 <= l < earlier.len() ==> (#[trigger] earlier[l]) <= usize::MAX - 1,
                    forall|l: int|
                        0 <= l < k ==> #[trigger] places[l] == shifted_place(earlier[l], input_index),
                    forall|l: int| k <= l < places.len() ==> #[trigger] places[l] == earlier[l],
                decreases places.len() - k,
            {
                if places[k] >= input_index {
                    places[k] = places[k] + 1;
                }
                k = k + 1;
            }
            if self.sources[i] == source {
                places.push(input_index);
            }
            std::mem::swap(&mut self.places[i], &mut places);
            proof {
                assert forall|j: int| i < j < self.places.len() implies #[trigger] self.places[j]
                    == old(self).places[j] by {
                    assert(self.places[j] == before[j]);
                }
                assert forall|j: int| 0 <= j < i implies places_shifted(
                    old(self).places[j]@,
                    (#[trigger] self.places[j])@,
                    input_index,
                    old(self).sources[j] == source,
                ) by {
                    assert(self.places[j] == before[j]);
                }
            }
            i = i + 1;
        }
    }

    /// Hands out the record: each source with the places of its copies.
    pub fn into_entries(self) -> (entries: Vec<(usize, Vec<usize>)>)
        requires
            self.wf(),
        ensures
            entries.len() == self.sources().len(),
            forall|i: int|
                0 <= i < entries.len() ==> (#[trigger] entries[i]).0 == self.sources()[i]
                    && entries[i].1@ == self.places()[i],
    {
        let mut places: Vec<Vec<usize>> = self.places;
        let mut entries: Vec<(usize, Vec<usize>)> = Vec::with_capacity(self.sources.len());
        let mut i: usize = 0;
        while i < self.sources.len()
            invariant
                i <= self.sources.len(),
                places.len() == self.sources.len(),
                places.len() == self.places.len(),
                entries.len() == i,
                forall|j: int| i <= j < places.len() ==> #[trigger] places[j] == self.places[j],
                forall|j: int|
                    0 <= j < i ==> (#[trigger] entries[j]).0 == self.sources[j] && entries[j].1
                        == self.places[j],
            decreases self.sources.len() - i,
        {
            let mut taken: Vec<usize> = Vec::new();
            std::mem::swap(&mut places[i], &mut taken);
            entries.push((self.sources[i], taken));
            i = i + 1;
        }
        entries
    }
}

} // verus!
