//! The route map: which tracks run between which input bus and which
//! output bus. It is asked both ways: for the tracks between two buses, and
//! for the buses of a track. A track is on one route at most: a track that
//! is on a route is not put on another.

use vstd::prelude::*;
use crate::utils::contains_id;

verus! {

/// One entry of the route map: the tracks that run between an input bus and
/// an output bus.
pub struct RouteView {
    /// The id of the input bus.
    pub input: u8,
    /// The id of the output bus.
    pub output: u8,
    /// The ids of the tracks on the route, in the order they were added.
    pub track_ids: Seq<u8>,
}

/// The buses of the first route that holds the track, if one does.
pub open spec fn route_of(routes: Seq<RouteView>, track_id: u8) -> Option<(u8, u8)>
    decreases routes.len(),
{
    if routes.len() == 0 {
        None
    } else if routes[0].track_ids.contains(track_id) {
        Some((routes[0].input, routes[0].output))
    } else {
        route_of(routes.drop_first(), track_id)
    }
}

/// The tracks of the first route between the two buses, if there is one.
pub open spec fn tracks_of(routes: Seq<RouteView>, input: u8, output: u8) -> Option<Seq<u8>>
    decreases routes.len(),
{
    if routes.len() == 0 {
        None
    } else if routes[0].input == input && routes[0].output == output {
        Some(routes[0].track_ids)
    } else {
        tracks_of(routes.drop_first(), input, output)
    }
}

/// The place of the first route between the two buses, if there is one.
pub open spec fn first_between(routes: Seq<RouteView>, input: u8, output: u8) -> Option<int>
    decreases routes.len(),
{
    if routes.len() == 0 {
        None
    } else if routes[0].input == input && routes[0].output == output {
        Some(0)
    } else {
        match first_between(routes.drop_first(), input, output) {
            Some(k) => Some(k + 1),
            None => None,
        }
    }
}

/// A route after it took a track in at the end.
pub open spec fn taking(route: RouteView, track_id: u8) -> RouteView {
    RouteView { track_ids: route.track_ids.push(track_id), ..route }
}

/// The routes after a track was offered to the route between two buses. A
/// track that is on a route already, between these buses or others, stays
/// where it is, and the map is unchanged. Otherwise the first route between
/// the two buses takes the track in, if there is such a route.
pub open spec fn with_track(routes: Seq<RouteView>, input: u8, output: u8, track_id: u8) -> Seq<
    RouteView,
> {
    if route_of(routes, track_id) is Some {
        routes
    } else {
        match first_between(routes, input, output) {
            Some(k) => routes.update(k, taking(routes[k], track_id)),
            None => routes,
        }
    }
}

/// Whether no track is on two routes.
pub open spec fn one_route_each(routes: Seq<RouteView>) -> bool {
    forall|j: int, k: int, t: u8|
        0 <= j < routes.len() && 0 <= k < routes.len() && #[trigger] routes[j].track_ids.contains(t)
            && #[trigger] routes[k].track_ids.contains(t) ==> j == k
}

/// The map from pairs of buses to the tracks between them.
pub struct RouteMap {
    routes: Vec<(u8, u8, Vec<u8>)>,
}

impl View for RouteMap {
    type V = Seq<RouteView>;

    closed spec fn view(&self) -> Seq<RouteView> {
        Seq::new(
            self.routes@.len(),
            |i: int|
                RouteView {
                    input: self.routes@[i].0,
                    output: self.routes@[i].1,
                    track_ids: self.routes@[i].2@,
                },
        )
    }
}

impl RouteMap {
    /// Makes a map without routes.
    pub fn new() -> (map: RouteMap)
        ensures
            map@ == Seq::<RouteView>::empty(),
    {
        let map = RouteMap { routes: Vec::new() };
        assert(map@ =~= Seq::<RouteView>::empty());
        map
    }

    /// Puts a route without tracks at the end of the map.
    pub fn add_route(&mut self, in_bus_id: &u8, out_bus_id: &u8)
        ensures
            final(self)@ == old(self)@.push(
                RouteView { input: *in_bus_id, output: *out_bus_id, track_ids: Seq::empty() },
            ),
    {
        self.routes.push((*in_bus_id, *out_bus_id, Vec::new()));
        assert(self@ =~= old(self)@.push(
            RouteView { input: *in_bus_id, output: *out_bus_id, track_ids: Seq::empty() },
        ));
    }

    /// Offers a track to the route between two buses. A track that is on a
    /// route already stays where it is; otherwise the first route between the
    /// two buses takes it in, if there is such a route.
    pub fn add_track_to_route(&mut self, in_id: &u8, out_id: &u8, track_id: &u8)
        ensures
            final(self)@ == with_track(old(self)@, *in_id, *out_id, *track_id),
    {
        if self.get_track_busses(track_id).is_some() {
            return;
        }
        let mut i: usize = 0;
        while i < self.routes.len()
            invariant
                i <= self.routes.len(),
                self.routes == old(self).routes,
                route_of(old(self)@, *track_id) is None,
                forall|k: int|
                    0 <= k < i ==> !((#[trigger] self@[k]).input == *in_id && self@[k].output
                        == *out_id),
            decreases self.routes.len() - i,
        {
            if self.routes[i].0 == *in_id && self.routes[i].1 == *out_id {
                let ghost before = self.routes@;
                assert(self@[i as int].input == *in_id && self@[i as int].output == *out_id);
                self.routes[i].2.push(*track_id);
                proof {
                    lemma_first_between(old(self)@, *in_id, *out_id);
                    assert(first_between(old(self)@, *in_id, *out_id) == Some(i as int));
                    assert forall|k: int| 0 <= k < self@.len() implies self@[k] == old(self)@.update(
                        i as int,
                        taking(old(self)@[i as int], *track_id),
                    )[k] by {
                        if k != i {
                            assert(self.routes@[k] == before[k]);
                        }
                    }
                    assert(self@ =~= old(self)@.update(
                        i as int,
                        taking(old(self)@[i as int], *track_id),
                    ));
                }
                return;
            }
            i = i + 1;
        }
        proof {
            lemma_first_between(old(self)@, *in_id, *out_id);
            assert(first_between(old(self)@, *in_id, *out_id) is None);
        }
    }

    /// The buses of the first route that holds the track.
    pub fn get_track_busses(&self, track_id: &u8) -> (busses: Option<(u8, u8)>)
        ensures
            busses == route_of(self@, *track_id),
    {
        let mut i: usize = 0;
        assert(self@.skip(0) == self@);
        while i < self.routes.len()
            invariant
                i <= self.routes.len(),
                route_of(self@, *track_id) == route_of(self@.skip(i as int), *track_id),
            decreases self.routes.len() - i,
        {
            proof {
                assert(self@.skip(i as int).drop_first() == self@.skip(i + 1));
            }
            if contains_id(&self.routes[i].2, *track_id) {
                return Some((self.routes[i].0, self.routes[i].1));
            }
            i = i + 1;
        }
        None
    }

    /// The tracks of the first route between the two buses.
    pub fn get_route_track_ids(&self, in_id: &u8, out_id: &u8) -> (track_ids: Option<Vec<u8>>)
        ensures
            track_ids is Some <==> tracks_of(self@, *in_id, *out_id) is Some,
            track_ids matches Some(ids) ==> tracks_of(self@, *in_id, *out_id) == Some(ids@),
    {
        let mut i: usize = 0;
        assert(self@.skip(0) == self@);
        while i < self.routes.len()
            invariant
                i <= self.routes.len(),
                tracks_of(self@, *in_id, *out_id) == tracks_of(self@.skip(i as int), *in_id, *out_id),
            decreases self.routes.len() - i,
        {
            proof {
                assert(self@.skip(i as int).drop_first() == self@.skip(i + 1));
            }
            if self.routes[i].0 == *in_id && self.routes[i].1 == *out_id {
                return Some(self.routes[i].2.clone());
            }
            i = i + 1;
        }
        None
    }
}

/// A route whose pair is found among the routes has the pair's buses.
pub proof fn lemma_route_of_is_a_route(routes: Seq<RouteView>, track_id: u8)
    ensures
        route_of(routes, track_id) matches Some(pair) ==> exists|k: int|
            0 <= k < routes.len() && (#[trigger] routes[k]).input == pair.0 && routes[k].output
                == pair.1 && routes[k].track_ids.contains(track_id),
        route_of(routes, track_id) is None ==> forall|k: int|
            0 <= k < routes.len() ==> !(#[trigger] routes[k]).track_ids.contains(track_id),
    decreases routes.len(),
{
    if routes.len() > 0 {
        let rest = routes.drop_first();
        lemma_route_of_is_a_route(rest, track_id);
        if !routes[0].track_ids.contains(track_id) {
            if route_of(routes, track_id) is Some {
                let pair = route_of(routes, track_id).unwrap();
                let k = choose|k: int|
                    0 <= k < rest.len() && (#[trigger] rest[k]).input == pair.0 && rest[k].output
                        == pair.1 && rest[k].track_ids.contains(track_id);
                assert(routes[k + 1] == rest[k]);
            } else {
                assert forall|k: int| 0 <= k < routes.len() implies !(#[trigger] routes[k]).track_ids.contains(
                    track_id,
                ) by {
                    if k > 0 {
                        assert(routes[k] == rest[k - 1]);
                    }
                }
            }
        }
    }
}

/// The first route between two buses runs between them and no route before
/// it does; asking for the tracks between the buses finds that route's.
pub proof fn lemma_first_between(routes: Seq<RouteView>, input: u8, output: u8)
    ensures
        first_between(routes, input, output) matches Some(k) ==> 0 <= k < routes.len()
            && routes[k].input == input && routes[k].output == output && tracks_of(
            routes,
            input,
            output,
        ) == Some(routes[k].track_ids) && forall|j: int|
            0 <= j < k ==> !((#[trigger] routes[j]).input == input && routes[j].output == output),
        first_between(routes, input, output) is None ==> tracks_of(routes, input, output) is None
            && forall|j: int|
            0 <= j < routes.len() ==> !((#[trigger] routes[j]).input == input && routes[j].output
                == output),
    decreases routes.len(),
{
    if routes.len() > 0 && !(routes[0].input == input && routes[0].output == output) {
        let rest = routes.drop_first();
        lemma_first_between(rest, input, output);
        match first_between(rest, input, output) {
            Some(k) => {
                assert(rest[k] == routes[k + 1]);
                assert forall|j: int| 0 <= j < k + 1 implies !((#[trigger] routes[j]).input
                    == input && routes[j].output == output) by {
                    if j > 0 {
                        assert(routes[j] == rest[j - 1]);
                    }
                }
            },
            None => {
                assert forall|j: int| 0 <= j < routes.len() implies !((#[trigger] routes[j]).input
                    == input && routes[j].output == output) by {
                    if j > 0 {
                        assert(routes[j] == rest[j - 1]);
                    }
                }
            },
        }
    }
}

/// Two maps whose routes run between the same buses and hold a track at the
/// same places give the track the same buses.
pub proof fn lemma_route_of_same(a: Seq<RouteView>, b: Seq<RouteView>, track_id: u8)
    requires
        a.len() == b.len(),
        forall|k: int|
            0 <= k < a.len() ==> (#[trigger] a[k]).input == b[k].input && a[k].output
                == b[k].output && a[k].track_ids.contains(track_id) == b[k].track_ids.contains(
                track_id,
            ),
    ensures
        route_of(a, track_id) == route_of(b, track_id),
    decreases a.len(),
{
    if a.len() > 0 {
        assert(a[0].input == b[0].input);
        assert forall|k: int| 0 <= k < a.drop_first().len() implies (#[trigger] a.drop_first()[k]).input
            == b.drop_first()[k].input && a.drop_first()[k].output == b.drop_first()[k].output
            && a.drop_first()[k].track_ids.contains(track_id) == b.drop_first()[k].track_ids.contains(
            track_id,
        ) by {
            assert(a.drop_first()[k] == a[k + 1]);
            assert(b.drop_first()[k] == b[k + 1]);
        }
        lemma_route_of_same(a.drop_first(), b.drop_first(), track_id);
    }
}

/// Offering a track to a route never puts a track on two routes. The routes
/// keep their buses; every other track keeps its route; a track that was on
/// a route keeps it and the map is unchanged; a track that was on none is
/// afterwards on the route between the two buses, if there is one.
pub proof fn lemma_with_track(routes: Seq<RouteView>, input: u8, output: u8, track_id: u8)
    requires
        one_route_each(routes),
    ensures
        one_route_each(with_track(routes, input, output, track_id)),
        with_track(routes, input, output, track_id).len() == routes.len(),
        forall|k: int|
            0 <= k < routes.len() ==> (#[trigger] with_track(
                routes,
                input,
                output,
                track_id,
            )[k]).input == routes[k].input && with_track(
                routes,
                input,
                output,
                track_id,
            )[k].output == routes[k].output,
        forall|other: u8|
            other != track_id ==> #[trigger] route_of(
                with_track(routes, input, output, track_id),
                other,
            ) == route_of(routes, other),
        route_of(routes, track_id) is Some ==> with_track(routes, input, output, track_id)
            == routes,
        route_of(routes, track_id) is None && tracks_of(routes, input, output) is None
            ==> with_track(routes, input, output, track_id) == routes,
        route_of(routes, track_id) is None && tracks_of(routes, input, output) is Some
            ==> route_of(with_track(routes, input, output, track_id), track_id) == Some(
            (input, output),
        ),
{
    let after = with_track(routes, input, output, track_id);
    lemma_first_between(routes, input, output);
    lemma_route_of_is_a_route(routes, track_id);
    if route_of(routes, track_id) is None && first_between(routes, input, output) is Some {
        let at = first_between(routes, input, output).unwrap();
        assert(after[at] == taking(routes[at], track_id));
        assert forall|k: int, t: u8| 0 <= k < routes.len() implies (
        #[trigger] after[k].track_ids.contains(t) <==> routes[k].track_ids.contains(t) || (k == at
            && t == track_id)) by {
            if k == at {
                lemma_push_contains(routes[at].track_ids, track_id, t);
            }
        }
        assert forall|j: int, k: int, t: u8|
            0 <= j < after.len() && 0 <= k < after.len() && #[trigger] after[j].track_ids.contains(t)
                && #[trigger] after[k].track_ids.contains(t) implies j == k by {
            if t != track_id {
                assert(routes[j].track_ids.contains(t));
                assert(routes[k].track_ids.contains(t));
            }
        }
        assert forall|other: u8| other != track_id implies #[trigger] route_of(after, other)
            == route_of(routes, other) by {
            assert forall|k: int| 0 <= k < after.len() implies (#[trigger] after[k]).input
                == routes[k].input && after[k].output == routes[k].output
                && after[k].track_ids.contains(other) == routes[k].track_ids.contains(other) by {
                assert(after[k].track_ids.contains(other) <==> routes[k].track_ids.contains(other)
                    || (k == at && other == track_id));
            }
            lemma_route_of_same(after, routes, other);
        }
        lemma_route_of_is_a_route(after, track_id);
        assert(after[at].track_ids.contains(track_id));
        if route_of(after, track_id) is Some {
            let pair = route_of(after, track_id).unwrap();
            let k = choose|k: int|
                0 <= k < after.len() && (#[trigger] after[k]).input == pair.0 && after[k].output
                    == pair.1 && after[k].track_ids.contains(track_id);
            assert(after[k].track_ids.contains(track_id) <==> routes[k].track_ids.contains(
                track_id,
            ) || (k == at && track_id == track_id));
            assert(k == at);
        }
    }
}

/// A route without tracks at the end of the map changes no track's route,
/// and makes sure there is a route between its two buses.
pub proof fn lemma_empty_route_added(routes: Seq<RouteView>, input: u8, output: u8, track_id: u8)
    ensures
        route_of(
            routes.push(RouteView { input, output, track_ids: Seq::empty() }),
            track_id,
        ) == route_of(routes, track_id),
        tracks_of(
            routes.push(RouteView { input, output, track_ids: Seq::empty() }),
            input,
            output,
        ) is Some,
    decreases routes.len(),
{
    let added = RouteView { input, output, track_ids: Seq::<u8>::empty() };
    let longer = routes.push(added);
    if routes.len() == 0 {
        assert(longer[0] == added);
        assert(!added.track_ids.contains(track_id));
        assert(longer.drop_first() =~= Seq::<RouteView>::empty());
        assert(route_of(longer.drop_first(), track_id) is None);
        assert(route_of(longer, track_id) is None);
    } else {
        assert(longer[0] == routes[0]);
        assert(longer.drop_first() == routes.drop_first().push(added));
        lemma_empty_route_added(routes.drop_first(), input, output, track_id);
        assert(route_of(longer, track_id) == route_of(routes, track_id));
    }
}

/// After `added` was put at the end of a list, the list holds what it held
/// and `added`.
pub proof fn lemma_push_contains(ids: Seq<u8>, added: u8, id: u8)
    ensures
        ids.push(added).contains(id) <==> ids.contains(id) || id == added,
{
    let pushed = ids.push(added);
    if pushed.contains(id) {
        let i = choose|i: int| 0 <= i < pushed.len() && pushed[i] == id;
        if i < ids.len() {
            assert(ids[i] == id);
        }
    }
    if ids.contains(id) {
        let i = choose|i: int| 0 <= i < ids.len() && ids[i] == id;
        assert(pushed[i] == id);
    }
    if id == added {
        assert(pushed[ids.len() as int] == id);
    }
}

/// Where some route runs between two buses, asking for the tracks between
/// them finds one.
pub proof fn lemma_route_has_tracks(routes: Seq<RouteView>, input: u8, output: u8)
    requires
        exists|k: int|
            0 <= k < routes.len() && (#[trigger] routes[k]).input == input && routes[k].output
                == output,
    ensures
        tracks_of(routes, input, output) is Some,
    decreases routes.len(),
{
    let k = choose|k: int|
        0 <= k < routes.len() && (#[trigger] routes[k]).input == input && routes[k].output
            == output;
    if !(routes[0].input == input && routes[0].output == output) {
        assert(routes.drop_first()[k - 1] == routes[k]);
        lemma_route_has_tracks(routes.drop_first(), input, output);
    }
}

/// A route without tracks at the end of the map puts no track on two routes.
pub proof fn lemma_add_route(routes: Seq<RouteView>, input: u8, output: u8)
    requires
        one_route_each(routes),
    ensures
        one_route_each(routes.push(RouteView { input, output, track_ids: Seq::empty() })),
{
    let longer = routes.push(RouteView { input, output, track_ids: Seq::<u8>::empty() });
    assert forall|j: int, k: int, t: u8|
        0 <= j < longer.len() && 0 <= k < longer.len() && #[trigger] longer[j].track_ids.contains(t)
            && #[trigger] longer[k].track_ids.contains(t) implies j == k by {
        if j < routes.len() && k < routes.len() {
            assert(longer[j] == routes[j] && longer[k] == routes[k]);
        }
    }
}

/// The routes after a new track was put between two buses: a route between
/// them is made if there was none, and the track is offered to it.
pub open spec fn routes_with(routes: Seq<RouteView>, input: u8, output: u8, track_id: u8) -> Seq<
    RouteView,
> {
    let base = if tracks_of(routes, input, output) is Some {
        routes
    } else {
        routes.push(RouteView { input, output, track_ids: Seq::empty() })
    };
    with_track(base, input, output, track_id)
}

/// Whether no two routes run between the same pair of buses.
pub open spec fn distinct_pairs(routes: Seq<RouteView>) -> bool {
    forall|j: int, k: int|
        0 <= j < k < routes.len() ==> !((#[trigger] routes[j]).input == (#[trigger] routes[k]).input
            && routes[j].output == routes[k].output)
}

/// Where asking for the tracks between two buses finds nothing, no route
/// runs between them.
pub proof fn lemma_no_route_between(routes: Seq<RouteView>, input: u8, output: u8)
    ensures
        tracks_of(routes, input, output) is None ==> forall|k: int|
            0 <= k < routes.len() ==> !((#[trigger] routes[k]).input == input && routes[k].output
                == output),
    decreases routes.len(),
{
    if routes.len() > 0 {
        lemma_no_route_between(routes.drop_first(), input, output);
        if tracks_of(routes, input, output) is None {
            assert forall|k: int| 0 <= k < routes.len() implies !((#[trigger] routes[k]).input
                == input && routes[k].output == output) by {
                if k > 0 {
                    assert(routes[k] == routes.drop_first()[k - 1]);
                }
            }
        }
    }
}

} // verus!
