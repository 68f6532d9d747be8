use vstd::prelude::*;

verus! {

/// Track `i` still has an item at its cursor.
pub open spec fn has_head<T>(tracks: Seq<Seq<(usize, T)>>, cursors: Seq<usize>, i: int) -> bool {
    0 <= i < tracks.len() && i < cursors.len() && cursors[i] < tracks[i].len()
}

/// Position of the item at the cursor of track `i`.
pub open spec fn head_pos<T>(tracks: Seq<Seq<(usize, T)>>, cursors: Seq<usize>, i: int) -> usize {
    tracks[i][cursors[i] as int].0
}

/// The track whose head comes first among tracks `0..k`: the smallest position, and on a
/// tie the lowest track.
pub open spec fn first_head<T>(tracks: Seq<Seq<(usize, T)>>, cursors: Seq<usize>, k: int) -> Option<int>
    decreases k,
{
    if k <= 0 {
        None
    } else {
        let prev = first_head(tracks, cursors, k - 1);
        if !has_head(tracks, cursors, k - 1) {
            prev
        } else {
            match prev {
                None => Some(k - 1),
                Some(b) => if head_pos(tracks, cursors, b) <= head_pos(tracks, cursors, k - 1) {
                    Some(b)
                } else {
                    Some(k - 1)
                },
            }
        }
    }
}

/// The track that the merge takes its next item from, if any track has one left.
pub open spec fn choice<T>(tracks: Seq<Seq<(usize, T)>>, cursors: Seq<usize>) -> Option<int> {
    first_head(tracks, cursors, tracks.len() as int)
}

/// Every track is ascending by position.
pub open spec fn tracks_ascending<T>(tracks: Seq<Seq<(usize, T)>>) -> bool {
    forall|i: int, a: int, b: int|
        0 <= i < tracks.len() && 0 <= a <= b < tracks[i].len() ==> tracks[i][a].0 <= tracks[i][b].0
}

/// The head that `first_head` picks has the smallest position, and every lower track with
/// a head has a strictly larger one; it is `None` only where no track has a head.
pub proof fn lemma_first_head<T>(tracks: Seq<Seq<(usize, T)>>, cursors: Seq<usize>, k: int)
    requires
        0 <= k <= tracks.len(),
    ensures
        first_head(tracks, cursors, k) is None <==> (forall|j: int|
            0 <= j < k ==> !has_head(tracks, cursors, j)),
        first_head(tracks, cursors, k) matches Some(i) ==> {
            &&& 0 <= i < k
            &&& has_head(tracks, cursors, i)
            &&& forall|j: int|
                0 <= j < k && has_head(tracks, cursors, j) ==> head_pos(tracks, cursors, i)
                    <= head_pos(tracks, cursors, j)
            &&& forall|j: int|
                0 <= j < i && has_head(tracks, cursors, j) ==> head_pos(tracks, cursors, j)
                    > head_pos(tracks, cursors, i)
        },
    decreases k,
{
    if k > 0 {
        lemma_first_head(tracks, cursors, k - 1);
    }
}

/// Merge order: with ascending tracks, the item taken after the next one never has a
/// smaller position, and where both positions are equal it comes from the same track or a
/// later one.
pub proof fn lemma_merge_ascending<T>(tracks: Seq<Seq<(usize, T)>>, cursors: Seq<usize>)
    requires
        tracks_ascending(tracks),
        cursors.len() == tracks.len(),
        forall|i: int| 0 <= i < tracks.len() ==> tracks[i].len() <= usize::MAX,
        forall|i: int| 0 <= i < tracks.len() ==> cursors[i] <= tracks[i].len(),
        choice(tracks, cursors) is Some,
        ({
            let i = choice(tracks, cursors)->0;
            choice(tracks, cursors.update(i, (cursors[i] + 1) as usize)) is Some
        }),
    ensures
        ({
            let i = choice(tracks, cursors)->0;
            let after = cursors.update(i, (cursors[i] + 1) as usize);
            let j = choice(tracks, after)->0;
            &&& head_pos(tracks, cursors, i) <= head_pos(tracks, after, j)
            &&& head_pos(tracks, cursors, i) == head_pos(tracks, after, j) ==> i <= j
        }),
{
    let n = tracks.len() as int;
    let i = choice(tracks, cursors)->0;
    let after = cursors.update(i, (cursors[i] + 1) as usize);
    lemma_first_head(tracks, cursors, n);
    lemma_first_head(tracks, after, n);
    let j = choice(tracks, after)->0;
    if j == i {
        assert(after[i] == cursors[i] + 1);
        assert(tracks[i][cursors[i] as int].0 <= tracks[i][after[i] as int].0);
    } else {
        assert(has_head(tracks, cursors, j));
        assert(head_pos(tracks, after, j) == head_pos(tracks, cursors, j));
    }
}

/// The first `n` items that the merge takes from the given cursors on, each with the track
/// it came from.
pub open spec fn merge_run<T>(tracks: Seq<Seq<(usize, T)>>, cursors: Seq<usize>, n: nat) -> Seq<(int, (usize, T))>
    decreases n,
{
    if n == 0 {
        seq![]
    } else {
        match choice(tracks, cursors) {
            None => seq![],
            Some(i) => seq![(i, tracks[i][cursors[i] as int])] + merge_run(
                tracks,
                cursors.update(i, (cursors[i] + 1) as usize),
                (n - 1) as nat,
            ),
        }
    }
}

/// Merge ordering over a whole merge: with ascending tracks, the items come out in
/// ascending order of position, and items with equal positions come out in track order.
pub proof fn lemma_merge_run_ascending<T>(tracks: Seq<Seq<(usize, T)>>, cursors: Seq<usize>, n: nat)
    requires
        tracks_ascending(tracks),
        cursors.len() == tracks.len(),
        forall|i: int| 0 <= i < tracks.len() ==> tracks[i].len() <= usize::MAX,
        forall|i: int| 0 <= i < tracks.len() ==> cursors[i] <= tracks[i].len(),
    ensures
        ({
            let out = merge_run(tracks, cursors, n);
            forall|a: int, b: int|
                0 <= a < b < out.len() ==> {
                    &&& out[a].1.0 <= out[b].1.0
                    &&& out[a].1.0 == out[b].1.0 ==> out[a].0 <= out[b].0
                }
        }),
    decreases n,
{
    if n > 0 && choice(tracks, cursors) is Some {
        let i = choice(tracks, cursors)->0;
        lemma_first_head(tracks, cursors, tracks.len() as int);
        let after = cursors.update(i, (cursors[i] + 1) as usize);
        assert forall|k: int| 0 <= k < tracks.len() implies after[k] <= tracks[k].len() by {}
        lemma_merge_run_ascending(tracks, after, (n - 1) as nat);
        let rest = merge_run(tracks, after, (n - 1) as nat);
        let x = (i, tracks[i][cursors[i] as int]);
        let out = seq![x] + rest;
        assert(merge_run(tracks, cursors, n) == out);
        if rest.len() > 0 {
            assert(choice(tracks, after) is Some);
            lemma_merge_ascending(tracks, cursors);
            lemma_first_head(tracks, after, tracks.len() as int);
            assert(rest[0] == (choice(tracks, after)->0, tracks[choice(tracks, after)->0][after[choice(
                tracks,
                after,
            )->0] as int]));
        }
        assert forall|a: int, b: int| 0 <= a < b < out.len() implies {
            &&& out[a].1.0 <= out[b].1.0
            &&& out[a].1.0 == out[b].1.0 ==> out[a].0 <= out[b].0
        } by {
            if a == 0 {
                assert(out[b] == rest[b - 1]);
                if b - 1 > 0 {
                    assert(rest[0].1.0 <= rest[b - 1].1.0);
                }
            } else {
                assert(out[a] == rest[a - 1]);
                assert(out[b] == rest[b - 1]);
            }
        }
    }
}

/// Merges several position-ordered tracks into one, always taking the head with the
/// smallest position, and the lowest track on a tie.
pub struct SortIterator<T> {
    tracks: Vec<Vec<(usize, T)>>,
    cursors: Vec<usize>,
}

impl<T: Copy> SortIterator<T> {
    /// The tracks being merged.
    pub closed spec fn tracks_view(&self) -> Seq<Seq<(usize, T)>> {
        self.tracks@.map_values(|t: Vec<(usize, T)>| t@)
    }

    /// How many items of each track have been taken.
    pub closed spec fn cursors_view(&self) -> Seq<usize> {
        self.cursors@
    }

    /// One cursor per track, none past its track's end.
    pub open spec fn wf(&self) -> bool {
        &&& self.cursors_view().len() == self.tracks_view().len()
        &&& forall|i: int|
            0 <= i < self.tracks_view().len() ==> #[trigger] self.cursors_view()[i]
                <= self.tracks_view()[i].len()
    }

    /// A merge of `its`, with nothing taken yet.
    pub fn new(its: Vec<Vec<(usize, T)>>) -> (r: Self)
        ensures
            r.wf(),
            r.tracks_view() == its@.map_values(|t: Vec<(usize, T)>| t@),
            r.cursors_view() == Seq::new(its@.len(), |i: int| 0usize),
    {
        let mut cursors: Vec<usize> = Vec::new();
        let mut i: usize = 0;
        while i < its.len()
            invariant
                i <= its@.len(),
                cursors@ == Seq::new(i as nat, |j: int| 0usize),
            decreases its@.len() - i,
        {
            cursors.push(0);
            i += 1;
        }
        let r = SortIterator { tracks: its, cursors };
        assert(r.cursors_view() =~= Seq::new(its@.len(), |i: int| 0usize));
        r
    }

    /// Takes the next item of the merge: the head of the track that `choice` names, or
    /// `None` once every track is used up.
    pub fn next(&mut self) -> (r: Option<(usize, T)>)
        requires
            old(self).wf(),
        ensures
            final(self).wf(),
            final(self).tracks_view() == old(self).tracks_view(),
            match choice(old(self).tracks_view(), old(self).cursors_view()) {
                None => r is None && final(self).cursors_view() == old(self).cursors_view(),
                Some(i) => {
                    &&& r == Some(old(self).tracks_view()[i][old(self).cursors_view()[i] as int])
                    &&& final(self).cursors_view() == old(self).cursors_view().update(
                        i,
                        (old(self).cursors_view()[i] + 1) as usize,
                    )
                },
            },
    {
        let ghost tv = self.tracks_view();
        let ghost cv = self.cursors_view();
        let mut best: Option<usize> = None;
        let mut k: usize = 0;
        while k < self.tracks.len()
            invariant
                self.wf(),
                tv == self.tracks_view(),
                cv == self.cursors_view(),
                k <= tv.len(),
                best == (match first_head(tv, cv, k as int) {
                    Some(b) => Some(b as usize),
                    None => None::<usize>,
                }),
                first_head(tv, cv, k as int) matches Some(b) ==> 0 <= b < k && has_head(tv, cv, b),
            decreases tv.len() - k,
        {
            assert(tv[k as int] == self.tracks@[k as int]@);
            let c = self.cursors[k];
            if c < self.tracks[k].len() {
                match best {
                    None => {
                        best = Some(k);
                    },
                    Some(b) => {
                        assert(tv[b as int] == self.tracks@[b as int]@);
                        if self.tracks[b][self.cursors[b]].0 > self.tracks[k][c].0 {
                            best = Some(k);
                        }
                    },
                }
            }
            k += 1;
        }
        match best {
            None => None,
            Some(b) => {
                assert(tv[b as int] == self.tracks@[b as int]@);
                let c = self.cursors[b];
                let len = self.tracks[b].len();
                assert(c < len);
                let item = self.tracks[b][c];
                self.cursors.set(b, c + 1);
                assert(self.tracks_view() == tv);
                Some(item)
            },
        }
    }
}

} // verus!
