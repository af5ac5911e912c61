//! Pairing interceptors with the targets near them.

use vstd::prelude::*;
use crate::geometry::{
    distance_squared, feet_of, lateral_feet, lemma_distance_squared_is_not_negative,
    lemma_feet_within_reach, reach_of, squared_distance, within_feet,
};
use crate::index::{
    build_index, entries_within, entry_distance_squared, index_entries, within_reach_of,
    TargetIndex,
};
use crate::order::{
    lemma_text_before_irreflexive, lemma_text_before_total, lemma_text_before_transitive,
    text_before, text_less,
};
use crate::snapshot::Position;
use crate::track::{Ac, AcView, Class};

verus! {

/// One detected event: an interceptor close to a target.
#[derive(Debug)]
pub struct Interception {
    /// The interceptor's track when the event was detected.
    pub interceptor: Ac,
    /// The target's track when the event was detected.
    pub target: Ac,
    /// The time of the detection.
    pub time: i64,
    /// The distance of the two on the map, in whole feet.
    pub lateral_separation_ft: u64,
    /// The difference of their altitudes, in feet.
    pub vertical_separation_ft: u32,
}

/// An interception as mathematics.
pub struct InterceptionView {
    pub interceptor: AcView,
    pub target: AcView,
    pub time: int,
    pub lateral_separation_ft: int,
    pub vertical_separation_ft: int,
}

impl View for Interception {
    type V = InterceptionView;

    open spec fn view(&self) -> InterceptionView {
        InterceptionView {
            interceptor: self.interceptor@,
            target: self.target@,
            time: self.time as int,
            lateral_separation_ft: self.lateral_separation_ft as int,
            vertical_separation_ft: self.vertical_separation_ft as int,
        }
    }
}

/// The tracks of a table as mathematics.
pub open spec fn views(tracks: Seq<Ac>) -> Seq<AcView> {
    tracks.map_values(|track: Ac| track@)
}

/// The square of the distance on the map of the latest positions of two
/// tracks.
pub open spec fn separation_squared(a: AcView, b: AcView) -> int {
    distance_squared(a.cur_coords().1, b.cur_coords().1)
}

/// The difference of the latest altitudes of two tracks, whichever is higher.
pub open spec fn vertical_feet(a: AcView, b: AcView) -> int {
    if a.cur_alt >= b.cur_alt {
        a.cur_alt - b.cur_alt
    } else {
        b.cur_alt - a.cur_alt
    }
}

/// The record of `interceptor` meeting `target` at `now`.
pub open spec fn interception_of(interceptor: AcView, target: AcView, now: int)
    -> InterceptionView {
    InterceptionView {
        interceptor,
        target,
        time: now,
        lateral_separation_ft: lateral_feet(separation_squared(interceptor, target)),
        vertical_separation_ft: vertical_feet(interceptor, target),
    }
}

/// Whether `pair` names an interceptor and a target of `tracks`, in that
/// order, that are no more than `max_feet` apart on the map at `now`.
pub open spec fn is_pair(tracks: Seq<AcView>, now: int, max_feet: int, pair: (int, int)) -> bool {
    &&& 0 <= pair.0 < tracks.len()
    &&& 0 <= pair.1 < tracks.len()
    &&& tracks[pair.0].class(now) == Class::Interceptor
    &&& tracks[pair.1].class(now) == Class::Target
    &&& within_feet(separation_squared(tracks[pair.0], tracks[pair.1]), max_feet)
}

/// Whether, seen from the track numbered `of`, the track numbered `a` comes
/// before the one numbered `b`: it is nearer on the map; or as near, with an
/// identifier that comes first; or as near and of the same identifier, with
/// the lesser number.
pub open spec fn nearer(tracks: Seq<AcView>, of: int, a: int, b: int) -> bool {
    let to_a = separation_squared(tracks[of], tracks[a]);
    let to_b = separation_squared(tracks[of], tracks[b]);
    ||| to_a < to_b
    ||| (to_a == to_b && text_before(tracks[a].hex, tracks[b].hex))
    ||| (to_a == to_b && tracks[a].hex == tracks[b].hex && a < b)
}

/// The order in which pairs are reported: by the number of the interceptor,
/// and for one interceptor the nearer target first.
pub open spec fn pair_before(tracks: Seq<AcView>, p: (int, int), q: (int, int)) -> bool {
    p.0 < q.0 || (p.0 == q.0 && nearer(tracks, p.0, p.1, q.1))
}

/// Whether `pairs` is the list of the interceptions among `tracks` at `now`:
/// each of its items is a pair, no pair is left out, and the items stand in
/// the order of `pair_before`.
pub open spec fn is_pairing(
    tracks: Seq<AcView>,
    now: int,
    max_feet: int,
    pairs: Seq<(int, int)>,
) -> bool {
    &&& forall|k: int| 0 <= k < pairs.len() ==> is_pair(tracks, now, max_feet, #[trigger] pairs[k])
    &&& forall|pair: (int, int)| #[trigger]
        is_pair(tracks, now, max_feet, pair) ==> pairs.contains(pair)
    &&& forall|k: int, l: int|
        0 <= k < l < pairs.len() ==> pair_before(tracks, #[trigger] pairs[k], #[trigger] pairs[l])
}

/// The list of the interceptions among `tracks` at `now`.
pub open spec fn pairing(tracks: Seq<AcView>, now: int, max_feet: int) -> Seq<(int, int)> {
    choose|pairs: Seq<(int, int)>| is_pairing(tracks, now, max_feet, pairs)
}

/// The records of the interceptions among `tracks` at `now`, in their order.
pub open spec fn interceptions_at(tracks: Seq<AcView>, now: int, max_feet: int) -> Seq<
    InterceptionView,
> {
    pairing(tracks, now, max_feet).map_values(
        |pair: (int, int)| interception_of(tracks[pair.0], tracks[pair.1], now),
    )
}

/// No track comes before itself.
pub proof fn lemma_nearer_irreflexive(tracks: Seq<AcView>, of: int, a: int)
    ensures
        !nearer(tracks, of, a, a),
{
    lemma_text_before_irreflexive(tracks[a].hex);
}

/// The order of the targets of one interceptor is transitive.
pub proof fn lemma_nearer_transitive(tracks: Seq<AcView>, of: int, a: int, b: int, c: int)
    requires
        nearer(tracks, of, a, b),
        nearer(tracks, of, b, c),
    ensures
        nearer(tracks, of, a, c),
{
    if text_before(tracks[a].hex, tracks[b].hex) && text_before(tracks[b].hex, tracks[c].hex) {
        lemma_text_before_transitive(tracks[a].hex, tracks[b].hex, tracks[c].hex);
    }
}

/// Of two different targets of one interceptor one comes before the other.
pub proof fn lemma_nearer_total(tracks: Seq<AcView>, of: int, a: int, b: int)
    ensures
        a == b || nearer(tracks, of, a, b) || nearer(tracks, of, b, a),
{
    lemma_text_before_total(tracks[a].hex, tracks[b].hex);
}

/// The order of the pairs is transitive, and no pair comes before itself.
pub proof fn lemma_pair_before_is_strict(
    tracks: Seq<AcView>,
    p: (int, int),
    q: (int, int),
    r: (int, int),
)
    ensures
        !pair_before(tracks, p, p),
        pair_before(tracks, p, q) && pair_before(tracks, q, r) ==> pair_before(tracks, p, r),
{
    lemma_nearer_irreflexive(tracks, p.0, p.1);
    if pair_before(tracks, p, q) && pair_before(tracks, q, r) && p.0 == q.0 && q.0 == r.0 {
        lemma_nearer_transitive(tracks, p.0, p.1, q.1, r.1);
    }
}

/// Two lists in the order of `pair_before` that hold the same pairs are one
/// list.
pub proof fn lemma_ordered_lists_agree(tracks: Seq<AcView>, p: Seq<(int, int)>, q: Seq<(int, int)>)
    requires
        forall|k: int, l: int|
            0 <= k < l < p.len() ==> pair_before(tracks, #[trigger] p[k], #[trigger] p[l]),
        forall|k: int, l: int|
            0 <= k < l < q.len() ==> pair_before(tracks, #[trigger] q[k], #[trigger] q[l]),
        forall|pair: (int, int)| p.contains(pair) <==> q.contains(pair),
    ensures
        p == q,
    decreases p.len(),
{
    if p.len() == 0 {
        if q.len() > 0 {
            assert(q.contains(q[0]));
        }
        assert(p =~= q);
    } else if q.len() == 0 {
        assert(p.contains(p[0]));
    } else {
        assert(p.contains(p[0]));
        assert(q.contains(q[0]));
        let k = choose|k: int| 0 <= k < q.len() && q[k] == p[0];
        let m = choose|m: int| 0 <= m < p.len() && p[m] == q[0];
        lemma_pair_before_is_strict(tracks, p[0], q[0], p[0]);
        assert(p[0] == q[0]);
        let p_rest = p.drop_first();
        let q_rest = q.drop_first();
        assert forall|pair: (int, int)| p_rest.contains(pair) <==> q_rest.contains(pair) by {
            lemma_pair_before_is_strict(tracks, pair, pair, pair);
            if p_rest.contains(pair) {
                let a = choose|a: int| 0 <= a < p_rest.len() && p_rest[a] == pair;
                assert(p[a + 1] == pair);
                assert(pair_before(tracks, p[0], p[a + 1]));
                assert(q.contains(pair));
                let b = choose|b: int| 0 <= b < q.len() && q[b] == pair;
                assert(b != 0);
                assert(q_rest[b - 1] == pair);
            }
            if q_rest.contains(pair) {
                let a = choose|a: int| 0 <= a < q_rest.len() && q_rest[a] == pair;
                assert(q[a + 1] == pair);
                assert(pair_before(tracks, q[0], q[a + 1]));
                assert(p.contains(pair));
                let b = choose|b: int| 0 <= b < p.len() && p[b] == pair;
                assert(b != 0);
                assert(p_rest[b - 1] == pair);
            }
        }
        assert forall|k: int, l: int| 0 <= k < l < p_rest.len() implies pair_before(
            tracks,
            #[trigger] p_rest[k],
            #[trigger] p_rest[l],
        ) by {
            assert(pair_before(tracks, p[k + 1], p[l + 1]));
        }
        assert forall|k: int, l: int| 0 <= k < l < q_rest.len() implies pair_before(
            tracks,
            #[trigger] q_rest[k],
            #[trigger] q_rest[l],
        ) by {
            assert(pair_before(tracks, q[k + 1], q[l + 1]));
        }
        lemma_ordered_lists_agree(tracks, p_rest, q_rest);
        assert(p =~= seq![p[0]] + p_rest);
        assert(q =~= seq![q[0]] + q_rest);
    }
}

/// The interceptions among given tracks at a given time have one list only:
/// what is reported does not depend on the order in which the index hands
/// out its entries.
pub proof fn lemma_pairing_is_unique(
    tracks: Seq<AcView>,
    now: int,
    max_feet: int,
    p: Seq<(int, int)>,
    q: Seq<(int, int)>,
)
    requires
        is_pairing(tracks, now, max_feet, p),
        is_pairing(tracks, now, max_feet, q),
    ensures
        p == q,
{
    assert forall|pair: (int, int)| p.contains(pair) <==> q.contains(pair) by {
        if p.contains(pair) {
            let k = choose|k: int| 0 <= k < p.len() && p[k] == pair;
            assert(is_pair(tracks, now, max_feet, p[k]));
        }
        if q.contains(pair) {
            let k = choose|k: int| 0 <= k < q.len() && q[k] == pair;
            assert(is_pair(tracks, now, max_feet, q[k]));
        }
    }
    lemma_ordered_lists_agree(tracks, p, q);
}

/// No reported interception has its two tracks further apart on the map than
/// the threshold, and each is of an interceptor and a target.
pub proof fn lemma_records_are_within_reach(
    tracks: Seq<AcView>,
    now: int,
    max_feet: int,
    pairs: Seq<(int, int)>,
    k: int,
)
    requires
        is_pairing(tracks, now, max_feet, pairs),
        0 <= k < pairs.len(),
        0 <= max_feet,
    ensures
        tracks[pairs[k].0].class(now) == Class::Interceptor,
        tracks[pairs[k].1].class(now) == Class::Target,
        interception_of(tracks[pairs[k].0], tracks[pairs[k].1], now).lateral_separation_ft
            <= max_feet,
{
    assert(is_pair(tracks, now, max_feet, pairs[k]));
    lemma_distance_squared_is_not_negative(
        tracks[pairs[k].0].cur_coords().1,
        tracks[pairs[k].1].cur_coords().1,
    );
    lemma_feet_within_reach(
        separation_squared(tracks[pairs[k].0], tracks[pairs[k].1]),
        max_feet,
    );
}

/// Where a table holds one interceptor and one target and no third track,
/// exactly one interception is reported if the two are no more than
/// `max_feet` apart on the map, with the separations of the two, and none if
/// they are further apart.
pub proof fn lemma_one_interceptor_one_target(
    tracks: Seq<AcView>,
    now: int,
    max_feet: int,
    interceptor: int,
    target: int,
)
    requires
        tracks.len() == 2,
        0 <= interceptor < 2,
        target == 1 - interceptor,
        tracks[interceptor].class(now) == Class::Interceptor,
        tracks[target].class(now) == Class::Target,
    ensures
        within_feet(separation_squared(tracks[interceptor], tracks[target]), max_feet)
            ==> interceptions_at(tracks, now, max_feet) == seq![
            interception_of(tracks[interceptor], tracks[target], now),
        ],
        !within_feet(separation_squared(tracks[interceptor], tracks[target]), max_feet)
            ==> interceptions_at(tracks, now, max_feet) == Seq::<InterceptionView>::empty(),
{
    let close = within_feet(separation_squared(tracks[interceptor], tracks[target]), max_feet);
    let list: Seq<(int, int)> = if close {
        seq![(interceptor, target)]
    } else {
        Seq::empty()
    };
    assert(is_pairing(tracks, now, max_feet, list)) by {
        assert forall|pair: (int, int)| #[trigger]
            is_pair(tracks, now, max_feet, pair) implies list.contains(pair) by {
            assert(pair.0 == interceptor && pair.1 == target);
            assert(list[0] == pair);
        }
    }
    lemma_pairing_is_unique(tracks, now, max_feet, list, pairing(tracks, now, max_feet));
    if close {
        assert(interceptions_at(tracks, now, max_feet) =~= seq![
            interception_of(tracks[interceptor], tracks[target], now),
        ]);
    } else {
        assert(interceptions_at(tracks, now, max_feet) =~= Seq::<InterceptionView>::empty());
    }
}

/// The index entry that stands for the track numbered `number`: its latest
/// position, filed under its number.
spec fn entry_of(tracks: Seq<AcView>, number: int) -> (i32, i32, usize) {
    let at = tracks[number].cur_coords().1;
    (at.lon, at.lat, number as usize)
}

/// Whether every one of `tracks` is well formed.
pub open spec fn all_wf(tracks: Seq<Ac>) -> bool {
    forall|i: int| 0 <= i < tracks.len() ==> (#[trigger] tracks[i]).wf()
}

/// Whether `entries` are the entries of the targets among `tracks` at `now`,
/// one for each.
spec fn are_target_entries(
    tracks: Seq<AcView>,
    now: int,
    entries: Seq<(i32, i32, usize)>,
) -> bool {
    &&& entries.no_duplicates()
    &&& forall|k: int|
        0 <= k < entries.len() ==> {
            let number = (#[trigger] entries[k]).2;
            &&& number < tracks.len()
            &&& tracks[number as int].class(now) == Class::Target
            &&& entries[k] == entry_of(tracks, number as int)
        }
    &&& forall|number: int|
        0 <= number < tracks.len() && tracks[number].class(now) == Class::Target
            ==> entries.contains(#[trigger] entry_of(tracks, number))
}

/// Whether `list` holds the targets within `max_feet` of the interceptor
/// numbered `of`, each once, the nearer first.
spec fn is_target_list(
    tracks: Seq<AcView>,
    now: int,
    max_feet: int,
    of: int,
    list: Seq<usize>,
) -> bool {
    &&& forall|k: int|
        0 <= k < list.len() ==> is_pair(tracks, now, max_feet, (of, (#[trigger] list[k]) as int))
    &&& forall|number: int| #[trigger]
        is_pair(tracks, now, max_feet, (of, number)) ==> list.contains(number as usize)
    &&& forall|k: int, l: int|
        0 <= k < l < list.len() ==> nearer(
            tracks,
            of,
            (#[trigger] list[k]) as int,
            (#[trigger] list[l]) as int,
        )
}

/// What the index hands out for a point and a radius, where it holds no entry
/// twice: each entry within the radius once, and nothing else.
proof fn lemma_found_entries(
    entries: Seq<(i32, i32, usize)>,
    found: Seq<(i32, i32, usize)>,
    lon: i32,
    lat: i32,
    reach: int,
)
    requires
        entries.no_duplicates(),
        found.to_multiset() == entries.to_multiset().filter(within_reach_of(lon, lat, reach)),
    ensures
        found.no_duplicates(),
        forall|entry: (i32, i32, usize)|
            found.contains(entry) <==> entries.contains(entry) && entry_distance_squared(
                entry,
                lon,
                lat,
            ) <= reach,
{
    broadcast use vstd::multiset::group_multiset_axioms;
    broadcast use vstd::seq_lib::group_to_multiset_ensures;

    entries.lemma_multiset_has_no_duplicates();
    let test = within_reach_of(lon, lat, reach);
    assert forall|entry: (i32, i32, usize)|
        found.contains(entry) <==> entries.contains(entry) && entry_distance_squared(
            entry,
            lon,
            lat,
        ) <= reach by {
        assert(test(entry) == (entry_distance_squared(entry, lon, lat) <= reach));
        assert(found.to_multiset().count(entry) == if test(entry) {
            entries.to_multiset().count(entry)
        } else {
            0
        });
    }
    assert forall|entry: (i32, i32, usize)| found.to_multiset().count(entry) <= 1 by {
        assert(found.to_multiset().count(entry) == if test(entry) {
            entries.to_multiset().count(entry)
        } else {
            0
        });
    }
    found.lemma_multiset_has_no_duplicates_conv();
}

/// The latest position of a track.
fn latest_position(track: &Ac) -> (at: Position)
    requires
        track.wf(),
    ensures
        at == track@.cur_coords().1,
{
    track.cur_coords().1
}

/// Whether, seen from the track numbered `of`, the track numbered `a` comes
/// before the one numbered `b`.
fn is_nearer(tracks: &Vec<Ac>, of: usize, a: usize, b: usize) -> (before: bool)
    requires
        all_wf(tracks@),
        of < tracks.len(),
        a < tracks.len(),
        b < tracks.len(),
    ensures
        before == nearer(views(tracks@), of as int, a as int, b as int),
{
    let here = latest_position(&tracks[of]);
    let to_a = squared_distance(here, latest_position(&tracks[a]));
    let to_b = squared_distance(here, latest_position(&tracks[b]));
    if to_a != to_b {
        to_a < to_b
    } else if text_less(tracks[a].hex.as_str(), tracks[b].hex.as_str()) {
        true
    } else {
        tracks[a].hex == tracks[b].hex && a < b
    }
}

/// One index entry for each of the targets among `tracks` at `now`.
fn target_entries(tracks: &Vec<Ac>, now: i64) -> (entries: Vec<(i32, i32, usize)>)
    requires
        all_wf(tracks@),
    ensures
        are_target_entries(views(tracks@), now as int, entries@),
{
    let ghost all = views(tracks@);
    let mut entries: Vec<(i32, i32, usize)> = Vec::new();
    let mut number: usize = 0;
    while number < tracks.len()
        invariant
            all_wf(tracks@),
            all == views(tracks@),
            number <= tracks.len(),
            forall|k: int|
                0 <= k < entries.len() ==> {
                    let filed = (#[trigger] entries[k]).2;
                    &&& filed < number
                    &&& all[filed as int].class(now as int) == Class::Target
                    &&& entries[k] == entry_of(all, filed as int)
                },
            forall|k: int, l: int|
                0 <= k < l < entries.len() ==> (#[trigger] entries[k]).2 < (#[trigger] entries[l]).2,
            forall|other: int|
                0 <= other < number && all[other].class(now as int) == Class::Target
                    ==> entries@.contains(#[trigger] entry_of(all, other)),
        decreases tracks.len() - number,
    {
        let track = &tracks[number];
        let ghost before = entries@;
        match track.class(now) {
            Class::Target => {
                let at = latest_position(track);
                entries.push((at.lon, at.lat, number));
                assert(entries@[before.len() as int] == entry_of(all, number as int));
                assert forall|other: int|
                    0 <= other < number + 1 && all[other].class(now as int)
                        == Class::Target implies entries@.contains(
                    #[trigger] entry_of(all, other),
                ) by {
                    if other < number {
                        let k = choose|k: int|
                            0 <= k < before.len() && before[k] == entry_of(all, other);
                        assert(entries@[k] == entry_of(all, other));
                    }
                }
            },
            _ => {},
        }
        number += 1;
    }
    entries
}

/// Whether one of the first `upto` of `found` is filed under `number`.
spec fn files(found: Seq<(i32, i32, usize)>, upto: int, number: usize) -> bool {
    exists|k: int| 0 <= k < upto && (#[trigger] found[k]).2 == number
}

/// The numbers under which `found` are filed, the nearer to the track
/// numbered `of` first.
fn nearest_first(tracks: &Vec<Ac>, of: usize, found: &Vec<(i32, i32, usize)>) -> (list: Vec<usize>)
    requires
        all_wf(tracks@),
        of < tracks.len(),
        forall|k: int| 0 <= k < found.len() ==> (#[trigger] found[k]).2 < tracks.len(),
        forall|k: int, l: int|
            0 <= k < l < found.len() ==> (#[trigger] found[k]).2 != (#[trigger] found[l]).2,
    ensures
        forall|k: int| 0 <= k < list.len() ==> files(found@, found.len() as int, #[trigger] list[k]),
        forall|k: int| 0 <= k < found.len() ==> list@.contains((#[trigger] found[k]).2),
        forall|k: int, l: int|
            0 <= k < l < list.len() ==> nearer(
                views(tracks@),
                of as int,
                (#[trigger] list[k]) as int,
                (#[trigger] list[l]) as int,
            ),
{
    let ghost all = views(tracks@);
    let mut list: Vec<usize> = Vec::new();
    let mut taken: usize = 0;
    while taken < found.len()
        invariant
            all_wf(tracks@),
            all == views(tracks@),
            of < tracks.len(),
            taken <= found.len(),
            forall|k: int| 0 <= k < found.len() ==> (#[trigger] found[k]).2 < tracks.len(),
            forall|k: int, l: int|
                0 <= k < l < found.len() ==> (#[trigger] found[k]).2 != (#[trigger] found[l]).2,
            forall|k: int| 0 <= k < list.len() ==> files(found@, taken as int, #[trigger] list[k]),
            forall|k: int| 0 <= k < taken ==> list@.contains((#[trigger] found[k]).2),
            forall|k: int, l: int|
                0 <= k < l < list.len() ==> nearer(
                    all,
                    of as int,
                    (#[trigger] list[k]) as int,
                    (#[trigger] list[l]) as int,
                ),
        decreases found.len() - taken,
    {
        let number = found[taken].2;
        let ghost before = list@;
        let mut at: usize = 0;
        while at < list.len() && is_nearer(tracks, of, list[at], number)
            invariant
                all_wf(tracks@),
                all == views(tracks@),
                of < tracks.len(),
                number < tracks.len(),
                list@ == before,
                at <= list.len(),
                forall|k: int| 0 <= k < list.len() ==> (#[trigger] list[k]) < tracks.len(),
                forall|k: int|
                    0 <= k < at ==> nearer(all, of as int, (#[trigger] list[k]) as int, number as int),
            decreases list.len() - at,
        {
            at += 1;
        }
        list.insert(at, number);
        proof {
            assert forall|k: int| 0 <= k < before.len() implies (#[trigger] before[k]) != number by {
                let j = choose|j: int| 0 <= j < taken && (#[trigger] found@[j]).2 == before[k];
                assert(found@[j].2 != found@[taken as int].2);
            }
            assert forall|k: int, l: int| 0 <= k < l < list.len() implies nearer(
                all,
                of as int,
                (#[trigger] list[k]) as int,
                (#[trigger] list[l]) as int,
            ) by {
                if l == at {
                } else if k == at {
                    // The one that stopped the search comes after the new
                    // number, and so do all behind it.
                    lemma_nearer_total(all, of as int, before[at as int] as int, number as int);
                    if l - 1 > at {
                        assert(nearer(
                            all,
                            of as int,
                            before[at as int] as int,
                            before[l - 1] as int,
                        ));
                        lemma_nearer_transitive(
                            all,
                            of as int,
                            number as int,
                            before[at as int] as int,
                            before[l - 1] as int,
                        );
                    }
                } else {
                    let k0 = if k < at { k } else { k - 1 };
                    let l0 = if l < at { l } else { l - 1 };
                    assert(nearer(all, of as int, before[k0] as int, before[l0] as int));
                }
            }
            assert forall|k: int| 0 <= k < list.len() implies files(
                found@,
                taken + 1,
                #[trigger] list[k],
            ) by {
                if k == at {
                    assert(found@[taken as int].2 == number);
                } else {
                    let k0 = if k < at { k } else { k - 1 };
                    assert(files(found@, taken as int, before[k0]));
                    let j = choose|j: int| 0 <= j < taken && (#[trigger] found@[j]).2 == before[k0];
                    assert(found@[j].2 == list[k]);
                }
            }
            assert forall|k: int| 0 <= k < taken + 1 implies list@.contains(
                (#[trigger] found[k]).2,
            ) by {
                if k == taken {
                    assert(list@[at as int] == number);
                } else {
                    assert(before.contains(found[k].2));
                    let m = choose|m: int| 0 <= m < before.len() && before[m] == found[k].2;
                    if m < at {
                        assert(list@[m] == found[k].2);
                    } else {
                        assert(list@[m + 1] == found[k].2);
                    }
                }
            }
        }
        taken += 1;
    }
    list
}

/// The targets within `max_feet` of the interceptor numbered `of`, the
/// nearer first, looked up in an index of the targets.
fn targets_near(
    tracks: &Vec<Ac>,
    now: i64,
    max_feet: u32,
    of: usize,
    index: &TargetIndex,
    entries: &Vec<(i32, i32, usize)>,
    reach: u128,
) -> (list: Vec<usize>)
    requires
        all_wf(tracks@),
        of < tracks.len(),
        views(tracks@)[of as int].class(now as int) == Class::Interceptor,
        are_target_entries(views(tracks@), now as int, entries@),
        index_entries(*index) == entries@.to_multiset(),
        reach <= i128::MAX,
        forall|distance_squared: int|
            distance_squared <= reach <==> #[trigger] within_feet(distance_squared, max_feet as int),
    ensures
        is_target_list(views(tracks@), now as int, max_feet as int, of as int, list@),
{
    let ghost all = views(tracks@);
    let here = latest_position(&tracks[of]);
    let found = entries_within(index, here.lon, here.lat, reach as i128);
    proof {
        lemma_found_entries(entries@, found@, here.lon, here.lat, reach as int);
        assert forall|k: int| 0 <= k < found.len() implies (#[trigger] found[k]).2
            < tracks.len() by {
            assert(found@.contains(found[k]));
            let e = choose|e: int| 0 <= e < entries.len() && entries[e] == found[k];
            assert(entries[e].2 < tracks.len());
        }
        assert forall|k: int, l: int| 0 <= k < l < found.len() implies (#[trigger] found[k]).2 != (
        #[trigger] found[l]).2 by {
            assert(found@.contains(found[k]));
            assert(found@.contains(found[l]));
            let e = choose|e: int| 0 <= e < entries.len() && entries[e] == found[k];
            let f = choose|f: int| 0 <= f < entries.len() && entries[f] == found[l];
            assert(entries[e] == entry_of(all, entries[e].2 as int));
            assert(entries[f] == entry_of(all, entries[f].2 as int));
        }
    }
    let list = nearest_first(tracks, of, &found);
    proof {
        assert forall|k: int| 0 <= k < list.len() implies is_pair(
            all,
            now as int,
            max_feet as int,
            (of as int, (#[trigger] list[k]) as int),
        ) by {
            let j = choose|j: int| 0 <= j < found.len() && (#[trigger] found@[j]).2 == list[k];
            assert(found@.contains(found@[j]));
            let e = choose|e: int| 0 <= e < entries.len() && entries[e] == found@[j];
            assert(entries[e] == entry_of(all, list[k] as int));
            assert(entry_distance_squared(found@[j], here.lon, here.lat) == separation_squared(
                all[of as int],
                all[list[k] as int],
            ));
        }
        assert forall|number: int| #[trigger]
            is_pair(all, now as int, max_feet as int, (of as int, number)) implies list@.contains(
            number as usize,
        ) by {
            let entry = entry_of(all, number);
            assert(entries@.contains(entry));
            assert(entry_distance_squared(entry, here.lon, here.lat) == separation_squared(
                all[of as int],
                all[number],
            ));
            assert(found@.contains(entry));
            let j = choose|j: int| 0 <= j < found.len() && found@[j] == entry;
            assert(list@.contains(found[j].2));
        }
    }
    list
}

/// Pairs of track numbers as pairs of integers.
pub open spec fn as_pairs(pairs: Seq<(usize, usize)>) -> Seq<(int, int)> {
    pairs.map_values(|pair: (usize, usize)| (pair.0 as int, pair.1 as int))
}

/// The records of interceptions as mathematics.
pub open spec fn record_views(records: Seq<Interception>) -> Seq<InterceptionView> {
    records.map_values(|record: Interception| record@)
}

/// Finds the interceptions among `tracks` at `now`: every interceptor with
/// every target whose latest position is no more than `max_lateral_ft` feet
/// from its own on the map. Each is given by the number of the interceptor
/// and the number of the target in `tracks`. They come by the number of the
/// interceptor, and for one interceptor the nearer target first; targets as
/// near as each other come by their identifiers, and by their numbers where
/// these are the same.
pub fn find_pairs(tracks: &Vec<Ac>, now: i64, max_lateral_ft: u32) -> (pairs: Vec<(usize, usize)>)
    requires
        all_wf(tracks@),
    ensures
        is_pairing(views(tracks@), now as int, max_lateral_ft as int, as_pairs(pairs@)),
        as_pairs(pairs@) == pairing(views(tracks@), now as int, max_lateral_ft as int),
{
    let ghost all = views(tracks@);
    let entries = target_entries(tracks, now);
    let index = build_index(&entries);
    let reach = reach_of(max_lateral_ft);
    let mut pairs: Vec<(usize, usize)> = Vec::new();
    let mut of: usize = 0;
    while of < tracks.len()
        invariant
            all_wf(tracks@),
            all == views(tracks@),
            of <= tracks.len(),
            are_target_entries(all, now as int, entries@),
            index_entries(index) == entries@.to_multiset(),
            reach <= i128::MAX,
            forall|distance_squared: int|
                distance_squared <= reach <==> #[trigger] within_feet(
                    distance_squared,
                    max_lateral_ft as int,
                ),
            forall|k: int|
                0 <= k < pairs.len() ==> (#[trigger] pairs[k]).0 < of && is_pair(
                    all,
                    now as int,
                    max_lateral_ft as int,
                    (pairs[k].0 as int, pairs[k].1 as int),
                ),
            forall|pair: (int, int)| #[trigger]
                is_pair(all, now as int, max_lateral_ft as int, pair) && pair.0 < of ==> as_pairs(
                    pairs@,
                ).contains(pair),
            forall|k: int, l: int|
                0 <= k < l < pairs.len() ==> pair_before(
                    all,
                    ((#[trigger] pairs[k]).0 as int, pairs[k].1 as int),
                    ((#[trigger] pairs[l]).0 as int, pairs[l].1 as int),
                ),
        decreases tracks.len() - of,
    {
        let ghost before = pairs@;
        match tracks[of].class(now) {
            Class::Interceptor => {
                let list = targets_near(tracks, now, max_lateral_ft, of, &index, &entries, reach);
                let mut taken: usize = 0;
                while taken < list.len()
                    invariant
                        taken <= list.len(),
                        pairs@ == before + Seq::new(taken as nat, |m: int| (of, list@[m])),
                    decreases list.len() - taken,
                {
                    pairs.push((of, list[taken]));
                    assert(pairs@ =~= before + Seq::new((taken + 1) as nat, |m: int| (of, list@[m])));
                    taken += 1;
                }
                proof {
                    assert forall|pair: (int, int)| #[trigger]
                        is_pair(all, now as int, max_lateral_ft as int, pair) && pair.0 < of
                            + 1 implies as_pairs(pairs@).contains(pair) by {
                        if pair.0 < of {
                            let k = choose|k: int|
                                0 <= k < before.len() && as_pairs(before)[k] == pair;
                            assert(as_pairs(pairs@)[k] == pair);
                        } else {
                            assert(is_pair(all, now as int, max_lateral_ft as int, (of as int, pair.1)));
                            assert(list@.contains(pair.1 as usize));
                            let m = choose|m: int| 0 <= m < list.len() && list@[m] == pair.1 as usize;
                            assert(as_pairs(pairs@)[before.len() + m] == pair);
                        }
                    }
                }
            },
            _ => {
                proof {
                    assert forall|pair: (int, int)| #[trigger]
                        is_pair(all, now as int, max_lateral_ft as int, pair) && pair.0 < of
                            + 1 implies as_pairs(pairs@).contains(pair) by {
                        assert(pair.0 < of);
                    }
                }
            },
        }
        of += 1;
    }
    proof {
        let found = as_pairs(pairs@);
        assert(is_pairing(all, now as int, max_lateral_ft as int, found)) by {
            assert forall|pair: (int, int)| #[trigger]
                is_pair(all, now as int, max_lateral_ft as int, pair) implies found.contains(
                pair,
            ) by {
                assert(pair.0 < of);
            }
        }
        lemma_pairing_is_unique(
            all,
            now as int,
            max_lateral_ft as int,
            found,
            pairing(all, now as int, max_lateral_ft as int),
        );
    }
    pairs
}

/// The difference of two altitudes, whichever is higher.
fn altitude_gap(a: i32, b: i32) -> (gap: u32)
    ensures
        gap == if a >= b {
            a - b
        } else {
            b - a
        },
{
    let difference: i64 = a as i64 - b as i64;
    if difference >= 0 {
        difference as u32
    } else {
        (-difference) as u32
    }
}

/// The record of `interceptor` meeting `target` at `now`.
fn record_of(interceptor: &Ac, target: &Ac, now: i64) -> (record: Interception)
    requires
        interceptor.wf(),
        target.wf(),
    ensures
        record@ == interception_of(interceptor@, target@, now as int),
{
    let apart = squared_distance(latest_position(interceptor), latest_position(target));
    Interception {
        interceptor: interceptor.clone(),
        target: target.clone(),
        time: now,
        lateral_separation_ft: feet_of(apart),
        vertical_separation_ft: altitude_gap(interceptor.cur_alt, target.cur_alt),
    }
}

/// Finds the interceptions among `tracks` at `now` and makes a record of
/// each: the two tracks as they are, the time `now`, the whole feet between
/// the latest positions on the map and the feet between the latest
/// altitudes. The records come in the order in which `find_pairs` gives the
/// pairs.
pub fn find_interceptions(tracks: &Vec<Ac>, now: i64, max_lateral_ft: u32) -> (records: Vec<
    Interception,
>)
    requires
        all_wf(tracks@),
    ensures
        record_views(records@) == interceptions_at(
            views(tracks@),
            now as int,
            max_lateral_ft as int,
        ),
{
    let ghost all = views(tracks@);
    let pairs = find_pairs(tracks, now, max_lateral_ft);
    let mut records: Vec<Interception> = Vec::new();
    let mut taken: usize = 0;
    while taken < pairs.len()
        invariant
            all_wf(tracks@),
            all == views(tracks@),
            taken <= pairs.len(),
            records.len() == taken,
            is_pairing(all, now as int, max_lateral_ft as int, as_pairs(pairs@)),
            forall|k: int|
                0 <= k < taken ==> (#[trigger] records[k])@ == interception_of(
                    all[pairs[k].0 as int],
                    all[pairs[k].1 as int],
                    now as int,
                ),
        decreases pairs.len() - taken,
    {
        let pair = pairs[taken];
        assert(is_pair(all, now as int, max_lateral_ft as int, as_pairs(pairs@)[taken as int]));
        let record = record_of(&tracks[pair.0], &tracks[pair.1], now);
        records.push(record);
        taken += 1;
    }
    assert(record_views(records@) =~= as_pairs(pairs@).map_values(
        |pair: (int, int)| interception_of(all[pair.0], all[pair.1], now as int),
    ));
    records
}

} // verus!
