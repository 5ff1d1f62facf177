use vstd::prelude::*;
use crate::geometry::{
    at, edges_of, exit_on_edge, is_exit_on_edge, lemma_exit_on_edge_iff_on_line,
    lemma_point_on_edge_without_length, offset_is_zero, polygon_to_sections, side,
};
use crate::primitives::{Point, Section};
use crate::wall::{DrawingObject, EXIT};

verus! {

/// The number of symbols in a room's identifier.
pub const ROOM_ID_LENGTH: usize = 21;

/// A drawn exit: its identifier and the segment it covers.
#[derive(Clone, Debug)]
pub struct Exit {
    pub id: String,
    pub section: Section,
}

/// An enclosed region of the drawing with the exits on its boundary.
#[derive(Clone, Debug)]
pub struct Room {
    pub id: String,
    pub points: Vec<Point>,
    pub exits: Vec<String>,
}

impl View for Exit {
    type V = (Seq<char>, Section);

    open spec fn view(&self) -> (Seq<char>, Section) {
        (self.id@, self.section)
    }
}

/// The exits of a list as mathematical values.
pub open spec fn exit_views(exits: Seq<Exit>) -> Seq<(Seq<char>, Section)> {
    exits.map_values(|e: Exit| e@)
}

/// The identifiers of a list as mathematical values.
pub open spec fn id_views(ids: Seq<String>) -> Seq<Seq<char>> {
    ids.map_values(|s: String| s@)
}

/// Whether `c` is one of the symbols that identifiers are made of: a letter
/// of the Latin alphabet, a digit, `_` or `-`.
pub open spec fn is_id_symbol(c: char) -> bool {
    ('a' <= c && c <= 'z') || ('A' <= c && c <= 'Z') || ('0' <= c && c <= '9') || c == '_' || c
        == '-'
}

/// The exits among `objects`, in the objects' order, each with the segment
/// between its two points.
pub open spec fn exits_in(objects: Seq<DrawingObject>) -> Seq<(Seq<char>, Section)>
    decreases objects.len(),
{
    if objects.len() == 0 {
        Seq::empty()
    } else {
        let o = objects.last();
        if o.object_type == EXIT {
            exits_in(objects.drop_last()).push(
                (o.id@, Section { start: o.points[0], end: o.points[1] }),
            )
        } else {
            exits_in(objects.drop_last())
        }
    }
}

/// The identifiers attached after the first `n` of `exits` were tested
/// against `edge`, starting from `found`: an exit is attached if its
/// identifier is not yet there and it lies on the edge.
pub open spec fn scan_exits(
    edge: Section,
    exits: Seq<(Seq<char>, Section)>,
    n: nat,
    found: Seq<Seq<char>>,
) -> Seq<Seq<char>>
    decreases n,
{
    if n == 0 {
        found
    } else {
        let before = scan_exits(edge, exits, (n - 1) as nat, found);
        let exit = exits[n - 1];
        if !before.contains(exit.0) && exit_on_edge(edge, exit.1) {
            before.push(exit.0)
        } else {
            before
        }
    }
}

/// The identifiers attached after all `exits` were tested against the first
/// `m` of `edges`, edge by edge.
pub open spec fn scan_edges(
    edges: Seq<Section>,
    exits: Seq<(Seq<char>, Section)>,
    m: nat,
) -> Seq<Seq<char>>
    decreases m,
{
    if m == 0 {
        Seq::empty()
    } else {
        scan_exits(edges[m - 1], exits, exits.len(), scan_edges(edges, exits, (m - 1) as nat))
    }
}

/// The identifiers of the exits on the boundary of the polygon `points`.
pub open spec fn exits_on(points: Seq<Point>, exits: Seq<(Seq<char>, Section)>) -> Seq<
    Seq<char>,
> {
    scan_edges(edges_of(points), exits, points.len())
}

/// How `rooms` must look for the traced `polygons` and the drawn `exits`: the
/// first polygon, the outer boundary, has no room; every other one has its
/// room, in order, with the polygon's points and the exits on its boundary.
pub open spec fn rooms_of(
    polygons: Seq<Vec<Point>>,
    exits: Seq<(Seq<char>, Section)>,
    rooms: Seq<Room>,
) -> bool {
    &&& rooms.len() == if polygons.len() == 0 {
        0
    } else {
        polygons.len() - 1
    }
    &&& forall|i: int|
        0 <= i < rooms.len() ==> {
            &&& (#[trigger] rooms[i]).points@ == polygons[i + 1]@
            &&& id_views(rooms[i].exits@) == exits_on(polygons[i + 1]@, exits)
        }
}

/// Whether one of the first `n` of `exits` carries `id` and lies on `edge`.
pub open spec fn on_edge_among(
    edge: Section,
    exits: Seq<(Seq<char>, Section)>,
    n: nat,
    id: Seq<char>,
) -> bool {
    exists|k: int| 0 <= k < n && (#[trigger] exits[k]).0 == id && exit_on_edge(edge, exits[k].1)
}

/// Whether one of `exits` carries `id` and lies on one of the first `m` of
/// `edges`.
pub open spec fn on_boundary_among(
    edges: Seq<Section>,
    exits: Seq<(Seq<char>, Section)>,
    m: nat,
    id: Seq<char>,
) -> bool {
    exists|j: int| 0 <= j < m && on_edge_among(#[trigger] edges[j], exits, exits.len(), id)
}

proof fn lemma_push_contains(s: Seq<Seq<char>>, x: Seq<char>, y: Seq<char>)
    ensures
        s.push(x).contains(y) == (s.contains(y) || x == y),
{
    if s.contains(y) {
        let i = choose|i: int| 0 <= i < s.len() && s[i] == y;
        assert(s.push(x)[i] == y);
    }
    if x == y {
        assert(s.push(x)[s.len() as int] == y);
    }
    if s.push(x).contains(y) {
        let i = choose|i: int| 0 <= i < s.push(x).len() && s.push(x)[i] == y;
        if i < s.len() {
            assert(s[i] == y);
        }
    }
}

proof fn lemma_scan_exits(
    edge: Section,
    exits: Seq<(Seq<char>, Section)>,
    n: nat,
    found: Seq<Seq<char>>,
    id: Seq<char>,
)
    requires
        n <= exits.len(),
    ensures
        scan_exits(edge, exits, n, found).contains(id) == (found.contains(id) || on_edge_among(
            edge,
            exits,
            n,
            id,
        )),
        found.no_duplicates() ==> scan_exits(edge, exits, n, found).no_duplicates(),
    decreases n,
{
    if n > 0 {
        let m = (n - 1) as nat;
        lemma_scan_exits(edge, exits, m, found, id);
        let before = scan_exits(edge, exits, m, found);
        let exit = exits[n - 1];
        let last = exit.0 == id && exit_on_edge(edge, exit.1);
        lemma_push_contains(before, exit.0, id);
        if on_edge_among(edge, exits, m, id) {
            let k = choose|k: int|
                0 <= k < m && (#[trigger] exits[k]).0 == id && exit_on_edge(edge, exits[k].1);
            assert(0 <= k < n && exits[k].0 == id && exit_on_edge(edge, exits[k].1));
        }
        if last {
            assert(0 <= n - 1 < n && exits[n - 1].0 == id && exit_on_edge(edge, exits[n - 1].1));
        }
        if on_edge_among(edge, exits, n, id) {
            let k = choose|k: int|
                0 <= k < n && (#[trigger] exits[k]).0 == id && exit_on_edge(edge, exits[k].1);
            if k < m {
                assert(on_edge_among(edge, exits, m, id));
            } else {
                assert(last);
            }
        }
        assert(on_edge_among(edge, exits, n, id) == (on_edge_among(edge, exits, m, id) || last));
        if found.no_duplicates() && !before.contains(exit.0) {
            let after = before.push(exit.0);
            assert forall|i: int, j: int|
                0 <= i < after.len() && 0 <= j < after.len() && i != j implies after[i]
                != after[j] by {
                if i < before.len() && j < before.len() {
                } else if i < before.len() {
                    assert(before.contains(before[i]));
                } else {
                    assert(before.contains(before[j]));
                }
            }
        }
    }
}

proof fn lemma_scan_edges(
    edges: Seq<Section>,
    exits: Seq<(Seq<char>, Section)>,
    m: nat,
    id: Seq<char>,
)
    requires
        m <= edges.len(),
    ensures
        scan_edges(edges, exits, m).contains(id) == on_boundary_among(edges, exits, m, id),
        scan_edges(edges, exits, m).no_duplicates(),
    decreases m,
{
    if m > 0 {
        let l = (m - 1) as nat;
        lemma_scan_edges(edges, exits, l, id);
        let found = scan_edges(edges, exits, l);
        lemma_scan_exits(edges[m - 1], exits, exits.len(), found, id);
        if on_boundary_among(edges, exits, l, id) {
            let j = choose|j: int|
                0 <= j < l && on_edge_among(#[trigger] edges[j], exits, exits.len(), id);
            assert(0 <= j < m && on_edge_among(edges[j], exits, exits.len(), id));
        }
        if on_edge_among(edges[m - 1], exits, exits.len(), id) {
            assert(0 <= m - 1 < m && on_edge_among(edges[m - 1], exits, exits.len(), id));
        }
        if on_boundary_among(edges, exits, m, id) {
            let j = choose|j: int|
                0 <= j < m && on_edge_among(#[trigger] edges[j], exits, exits.len(), id);
            if j < l {
                assert(on_boundary_among(edges, exits, l, id));
            }
        }
    } else {
        assert(!scan_edges(edges, exits, m).contains(id));
    }
}

/// An identifier is attached to a room exactly when an exit that carries it
/// lies on an edge of the room's polygon, and it is attached at most once.
pub proof fn lemma_attached_exits(
    points: Seq<Point>,
    exits: Seq<(Seq<char>, Section)>,
    id: Seq<char>,
)
    ensures
        exits_on(points, exits).contains(id) == on_boundary_among(
            edges_of(points),
            exits,
            points.len(),
            id,
        ),
        exits_on(points, exits).no_duplicates(),
{
    lemma_scan_edges(edges_of(points), exits, points.len(), id);
}

/// Whether `p` is a point of the segment `edge`: on its line, and between
/// its ends in both coordinates.
pub open spec fn on_segment(edge: Section, p: Point) -> bool {
    &&& side(at(edge.start), at(edge.end), at(p)) == 0
    &&& (edge.start.x <= p.x <= edge.end.x || edge.end.x <= p.x <= edge.start.x)
    &&& (edge.start.y <= p.y <= edge.end.y || edge.end.y <= p.y <= edge.start.y)
}

/// Whether `exit` runs beside the line through `edge`: the offset of one of
/// its ends is not zero.
pub open spec fn beside(edge: Section, exit: Section) -> bool {
    !offset_is_zero(edge, exit.start) || !offset_is_zero(edge, exit.end)
}

/// An exit that lies on an edge of a room, both ends on the segment, is
/// attached to the room.
pub proof fn lemma_exit_on_boundary_attached(
    points: Seq<Point>,
    exits: Seq<(Seq<char>, Section)>,
    j: int,
    k: int,
)
    requires
        0 <= j < points.len(),
        0 <= k < exits.len(),
        on_segment(edges_of(points)[j], exits[k].1.start),
        on_segment(edges_of(points)[j], exits[k].1.end),
    ensures
        exits_on(points, exits).contains(exits[k].0),
{
    let edges = edges_of(points);
    let edge = edges[j];
    let exit = exits[k].1;
    if edge.start != edge.end {
        lemma_exit_on_edge_iff_on_line(edge, exit);
    } else {
        assert(exit.start == edge.start);
        assert(exit.end == edge.start);
        lemma_point_on_edge_without_length(edge);
    }
    assert(exit_on_edge(edge, exit));
    assert(on_edge_among(edges[j], exits, exits.len(), exits[k].0));
    assert(on_boundary_among(edges, exits, points.len(), exits[k].0));
    lemma_attached_exits(points, exits, exits[k].0);
}

/// An identifier whose exits all run beside every edge of a room is not
/// attached to the room.
pub proof fn lemma_exit_off_boundary_not_attached(
    points: Seq<Point>,
    exits: Seq<(Seq<char>, Section)>,
    id: Seq<char>,
)
    requires
        forall|j: int, k: int|
            0 <= j < points.len() && 0 <= k < exits.len() && (#[trigger] exits[k]).0 == id
                ==> beside(#[trigger] edges_of(points)[j], exits[k].1),
    ensures
        !exits_on(points, exits).contains(id),
{
    let edges = edges_of(points);
    lemma_attached_exits(points, exits, id);
    if on_boundary_among(edges, exits, points.len(), id) {
        let j = choose|j: int|
            0 <= j < points.len() && on_edge_among(#[trigger] edges[j], exits, exits.len(), id);
        let k = choose|k: int|
            0 <= k < exits.len() && (#[trigger] exits[k]).0 == id && exit_on_edge(
                edges[j],
                exits[k].1,
            );
        assert(beside(edges[j], exits[k].1));
    }
}

/// An exit whose identifier no other exit carries is attached to a room
/// exactly when it passes the boundary test against one of the room's edges.
pub proof fn lemma_single_exit_attached(
    points: Seq<Point>,
    exits: Seq<(Seq<char>, Section)>,
    k: int,
)
    requires
        0 <= k < exits.len(),
        forall|other: int|
            0 <= other < exits.len() && other != k ==> (#[trigger] exits[other]).0 != exits[k].0,
    ensures
        exits_on(points, exits).contains(exits[k].0) == (exists|j: int|
            0 <= j < points.len() && exit_on_edge(#[trigger] edges_of(points)[j], exits[k].1)),
{
    let edges = edges_of(points);
    let id = exits[k].0;
    lemma_attached_exits(points, exits, id);
    if on_boundary_among(edges, exits, points.len(), id) {
        let j = choose|j: int|
            0 <= j < points.len() && on_edge_among(#[trigger] edges[j], exits, exits.len(), id);
        let found = choose|found: int|
            0 <= found < exits.len() && (#[trigger] exits[found]).0 == id && exit_on_edge(
                edges[j],
                exits[found].1,
            );
        assert(found == k);
        assert(0 <= j < points.len() && exit_on_edge(edges_of(points)[j], exits[k].1));
    }
    if exists|j: int|
        0 <= j < points.len() && exit_on_edge(#[trigger] edges_of(points)[j], exits[k].1) {
        let j = choose|j: int|
            0 <= j < points.len() && exit_on_edge(#[trigger] edges_of(points)[j], exits[k].1);
        assert(on_edge_among(edges[j], exits, exits.len(), id));
        assert(on_boundary_among(edges, exits, points.len(), id));
    }
}

/// The rooms of a drawing are determined by its polygons and exits up to
/// their identifiers: two room lists made for the same polygons and exits
/// agree in length, in every room's polygon and in every room's exits.
pub proof fn lemma_rooms_determined(
    polygons: Seq<Vec<Point>>,
    exits: Seq<(Seq<char>, Section)>,
    first: Seq<Room>,
    second: Seq<Room>,
)
    requires
        rooms_of(polygons, exits, first),
        rooms_of(polygons, exits, second),
    ensures
        first.len() == second.len(),
        forall|i: int|
            0 <= i < first.len() ==> {
                &&& (#[trigger] first[i]).points@ == second[i].points@
                &&& id_views(first[i].exits@) == id_views(second[i].exits@)
            },
{
    assert forall|i: int| 0 <= i < first.len() implies {
        &&& (#[trigger] first[i]).points@ == second[i].points@
        &&& id_views(first[i].exits@) == id_views(second[i].exits@)
    } by {
        assert(second[i].points@ == polygons[i + 1]@);
    }
}

/// Without polygons, or with the outer boundary alone, there is no room.
pub proof fn lemma_no_polygon_no_room(
    polygons: Seq<Vec<Point>>,
    exits: Seq<(Seq<char>, Section)>,
    rooms: Seq<Room>,
)
    requires
        polygons.len() <= 1,
        rooms_of(polygons, exits, rooms),
    ensures
        rooms.len() == 0,
{
}

/// Builds an identifier with `nanoid::format`, from the operating system's
/// random numbers and nanoid's URL-friendly alphabet. Claimed of it: the
/// identifier has 21 symbols, each a Latin letter, a digit, `_` or `-`.
/// Which symbols they are is left open. Where the operating system gives no
/// random numbers the call does not return: it stops the program.
#[verifier::external_body]
fn fresh_room_id() -> (id: String)
    ensures
        id@.len() == ROOM_ID_LENGTH,
        forall|i: int| 0 <= i < id@.len() ==> is_id_symbol(#[trigger] id@[i]),
{
    nanoid::format(nanoid::rngs::default, &nanoid::alphabet::SAFE, 21)
}

/// The exits among `objects`.
pub fn exits_of(objects: &Vec<DrawingObject>) -> (exits: Vec<Exit>)
    ensures
        exit_views(exits@) == exits_in(objects@),
{
    let mut exits: Vec<Exit> = Vec::new();
    let mut i: usize = 0;
    while i < objects.len()
        invariant
            i <= objects.len(),
            exit_views(exits@) == exits_in(objects@.take(i as int)),
        decreases objects.len() - i,
    {
        assert(objects@.take(i + 1).drop_last() =~= objects@.take(i as int));
        let object: &DrawingObject = &objects[i];
        if object.object_type == EXIT {
            let ghost before = exits@;
            exits.push(
                Exit {
                    id: object.id.clone(),
                    section: Section { start: object.points[0], end: object.points[1] },
                },
            );
            assert(exit_views(exits@) =~= exit_views(before).push(exits@.last()@));
        }
        i = i + 1;
    }
    assert(objects@.take(objects.len() as int) =~= objects@);
    exits
}

/// Whether `id` is among `ids`.
pub fn contains_id(ids: &Vec<String>, id: &String) -> (b: bool)
    ensures
        b == id_views(ids@).contains(id@),
{
    let mut k: usize = 0;
    while k < ids.len()
        invariant
            k <= ids.len(),
            forall|j: int| 0 <= j < k ==> id_views(ids@)[j] != id@,
        decreases ids.len() - k,
    {
        if ids[k] == *id {
            assert(id_views(ids@)[k as int] == id@);
            return true;
        }
        k = k + 1;
    }
    false
}

/// The identifiers of the exits that lie on the boundary of `points`: every
/// edge in turn is held against every exit not yet attached.
pub fn match_exits(points: &Vec<Point>, exits: &Vec<Exit>) -> (ids: Vec<String>)
    ensures
        id_views(ids@) == exits_on(points@, exit_views(exits@)),
{
    let edges: Vec<Section> = polygon_to_sections(points);
    let mut ids: Vec<String> = Vec::new();
    let mut j: usize = 0;
    assert(id_views(ids@) =~= Seq::<Seq<char>>::empty());
    while j < edges.len()
        invariant
            j <= edges.len(),
            edges@ == edges_of(points@),
            id_views(ids@) == scan_edges(edges@, exit_views(exits@), j as nat),
        decreases edges.len() - j,
    {
        let edge: Section = edges[j];
        let ghost found = id_views(ids@);
        let mut k: usize = 0;
        while k < exits.len()
            invariant
                k <= exits.len(),
                id_views(ids@) == scan_exits(edge, exit_views(exits@), k as nat, found),
            decreases exits.len() - k,
        {
            let exit: &Exit = &exits[k];
            assert(exit_views(exits@)[k as int] == exit@);
            if !contains_id(&ids, &exit.id) && is_exit_on_edge(edge, exit.section) {
                let ghost before = ids@;
                ids.push(exit.id.clone());
                assert(id_views(ids@) =~= id_views(before).push(exit.id@));
            }
            k = k + 1;
        }
        j = j + 1;
    }
    ids
}

/// The room with the given identifier, boundary and exits.
pub fn assemble_room(id: String, points: Vec<Point>, exits: Vec<String>) -> (room: Room)
    ensures
        room.id == id,
        room.points == points,
        room.exits == exits,
{
    Room { id, points, exits }
}

fn copy_points(points: &Vec<Point>) -> (copy: Vec<Point>)
    ensures
        copy@ == points@,
{
    let mut copy: Vec<Point> = Vec::with_capacity(points.len());
    let mut i: usize = 0;
    while i < points.len()
        invariant
            i <= points.len(),
            copy@ == points@.take(i as int),
        decreases points.len() - i,
    {
        copy.push(points[i]);
        i = i + 1;
        assert(copy@ =~= points@.take(i as int));
    }
    assert(points@.take(points.len() as int) =~= points@);
    copy
}

/// The rooms of a drawing, from the polygons traced on its grid, outer
/// boundary first, and its exits. Each room gets a new identifier.
pub fn rooms(polygons: &Vec<Vec<Point>>, exits: &Vec<Exit>) -> (rooms: Vec<Room>)
    ensures
        rooms_of(polygons@, exit_views(exits@), rooms@),
        forall|i: int|
            0 <= i < rooms.len() ==> {
                &&& (#[trigger] rooms[i]).id@.len() == ROOM_ID_LENGTH
                &&& forall|j: int|
                    0 <= j < rooms[i].id@.len() ==> is_id_symbol(#[trigger] rooms[i].id@[j])
            },
{
    let mut rooms: Vec<Room> = Vec::new();
    if polygons.len() == 0 {
        return rooms;
    }
    let mut i: usize = 1;
    while i < polygons.len()
        invariant
            1 <= i <= polygons.len(),
            rooms.len() == i - 1,
            forall|r: int|
                0 <= r < rooms.len() ==> {
                    &&& (#[trigger] rooms[r]).points@ == polygons[r + 1]@
                    &&& id_views(rooms[r].exits@) == exits_on(
                        polygons[r + 1]@,
                        exit_views(exits@),
                    )
                    &&& rooms[r].id@.len() == ROOM_ID_LENGTH
                    &&& forall|j: int|
                        0 <= j < rooms[r].id@.len() ==> is_id_symbol(#[trigger] rooms[r].id@[j])
                },
        decreases polygons.len() - i,
    {
        let polygon: &Vec<Point> = &polygons[i];
        let attached: Vec<String> = match_exits(polygon, exits);
        let room: Room = assemble_room(fresh_room_id(), copy_points(polygon), attached);
        rooms.push(room);
        i = i + 1;
    }
    rooms
}

} // verus!
