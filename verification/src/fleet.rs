use crate::boat::{fleet_view, Boat, BoatView};
use crate::ident::{RANDOM_UUID_MARK, VERSION_VARIANT_MASK};
use crate::player::{fleet_view_pieces, lemma_fleet_view_pieces};
use std::collections::HashMap;
use std::collections::HashSet;
use vstd::prelude::*;

verus! {

/// The number of pieces in one boat of each size from one to five.
pub const COMPLETE_SET_PIECES: u64 = 15;

/// The dimensions `(x_len, y_len)` of the boat of `size` pieces: sizes two
/// and four lie along x, sizes three and five along y.
pub open spec fn shape_of_size(size: nat) -> (u32, u32) {
    if size == 1 {
        (1, 1)
    } else if size == 2 {
        (2, 1)
    } else if size == 3 {
        (1, 3)
    } else if size == 4 {
        (4, 1)
    } else if size == 5 {
        (1, 5)
    } else {
        (0, 0)
    }
}

/// The sizes of the boats in `sets` complete sets.
pub open spec fn complete_sets(sets: nat) -> Seq<nat>
    decreases sets,
{
    if sets == 0 {
        Seq::empty()
    } else {
        complete_sets((sets - 1) as nat) + seq![1nat, 2nat, 3nat, 4nat, 5nat]
    }
}

/// The sizes of the boats that stand for `remainder` pieces, for a remainder
/// below fifteen. The table is a choice, not a formula.
pub open spec fn remainder_sizes(remainder: nat) -> Seq<nat> {
    if remainder == 1 {
        seq![1nat]
    } else if remainder == 2 {
        seq![2nat]
    } else if remainder == 3 {
        seq![1nat, 2nat]
    } else if remainder == 4 {
        seq![1nat, 3nat]
    } else if remainder == 5 {
        seq![2nat, 3nat]
    } else if remainder == 6 {
        seq![1nat, 2nat, 3nat]
    } else if remainder == 7 {
        seq![3nat, 4nat]
    } else if remainder == 8 {
        seq![1nat, 3nat, 4nat]
    } else if remainder == 9 {
        seq![2nat, 3nat, 4nat]
    } else if remainder == 10 {
        seq![1nat, 2nat, 3nat, 4nat]
    } else if remainder == 11 {
        seq![1nat, 2nat, 3nat, 5nat]
    } else if remainder == 12 {
        seq![1nat, 2nat, 4nat, 5nat]
    } else if remainder == 13 {
        seq![1nat, 3nat, 4nat, 5nat]
    } else if remainder == 14 {
        seq![2nat, 3nat, 4nat, 5nat]
    } else {
        Seq::empty()
    }
}

/// The sizes of the boats of a fleet of `n_pieces` pieces, in the order in
/// which they are built: as many complete sets as fit, then the boats for
/// what remains.
pub open spec fn fleet_sizes(n_pieces: nat) -> Seq<nat> {
    complete_sets(n_pieces / 15) + remainder_sizes(n_pieces % 15)
}

/// The sum of `sizes`.
pub open spec fn total(sizes: Seq<nat>) -> nat
    decreases sizes.len(),
{
    if sizes.len() == 0 {
        0
    } else {
        total(sizes.drop_last()) + sizes.last()
    }
}

/// The number of pieces that each player gets on a board of `board_x_len` by
/// `board_y_len` cells: a fifth of the cells, rounded down.
pub open spec fn pieces_per_player(board_x_len: nat, board_y_len: nat) -> nat {
    (board_x_len * board_y_len) / 5
}

/// The boats are new and have, one by one, the shapes of `sizes`.
pub open spec fn is_fleet(boats: Seq<Boat>, sizes: Seq<nat>) -> bool {
    &&& boats.len() == sizes.len()
    &&& forall|i: int|
        0 <= i < boats.len() ==> (#[trigger] boats[i])@ == BoatView::fresh(
            boats[i]@.id,
            shape_of_size(sizes[i]).0,
            shape_of_size(sizes[i]).1,
        )
}

/// No two of the boats share an identifier.
pub open spec fn distinct_ids(boats: Seq<Boat>) -> bool {
    forall|i: int, j: int|
        0 <= i < j < boats.len() ==> (#[trigger] boats[i])@.id != (#[trigger] boats[j])@.id
}

/// Every boat has a random identifier or, where the random one was already
/// taken, its place in the fleet for identifier; `used` holds them all.
pub open spec fn ids_in_use(boats: Seq<Boat>, used: Set<u128>) -> bool {
    &&& boats.len() <= usize::MAX
    &&& forall|i: int|
        0 <= i < boats.len() ==> {
            &&& used.contains((#[trigger] boats[i])@.id)
            &&& boats[i]@.id & VERSION_VARIANT_MASK == RANDOM_UUID_MARK || boats[i]@.id == i
        }
}

/// The number of pieces of all the boats together.
pub open spec fn fleet_pieces(boats: Seq<Boat>) -> nat
    decreases boats.len(),
{
    if boats.len() == 0 {
        0
    } else {
        fleet_pieces(boats.drop_last()) + boats.last()@.hits.len()
    }
}

/// The identifier-to-boat mapping of `boats`. Where two boats share an
/// identifier, the one that comes first in `boats` is kept.
pub open spec fn fleet_map(boats: Seq<Boat>) -> Map<u128, Boat>
    decreases boats.len(),
{
    if boats.len() == 0 {
        Map::empty()
    } else {
        fleet_map(boats.drop_first()).insert(boats[0]@.id, boats[0])
    }
}

pub proof fn lemma_total_concat(a: Seq<nat>, b: Seq<nat>)
    ensures
        total(a + b) == total(a) + total(b),
    decreases b.len(),
{
    if b.len() == 0 {
        assert(a + b =~= a);
    } else {
        assert((a + b).drop_last() =~= a + b.drop_last());
        lemma_total_concat(a, b.drop_last());
    }
}

pub proof fn lemma_total_complete_sets(sets: nat)
    ensures
        total(complete_sets(sets)) == 15 * sets,
    decreases sets,
{
    if sets > 0 {
        let set = seq![1nat, 2nat, 3nat, 4nat, 5nat];
        lemma_total_complete_sets((sets - 1) as nat);
        lemma_total_concat(complete_sets((sets - 1) as nat), set);
        lemma_total_literal(set);
    }
}

/// Unfolds `total` on a sequence of at most five entries.
proof fn lemma_total_literal(s: Seq<nat>)
    requires
        s.len() <= 5,
    ensures
        s.len() == 0 ==> total(s) == 0,
        s.len() == 1 ==> total(s) == s[0],
        s.len() == 2 ==> total(s) == s[0] + s[1],
        s.len() == 3 ==> total(s) == s[0] + s[1] + s[2],
        s.len() == 4 ==> total(s) == s[0] + s[1] + s[2] + s[3],
        s.len() == 5 ==> total(s) == s[0] + s[1] + s[2] + s[3] + s[4],
    decreases s.len(),
{
    if s.len() > 0 {
        lemma_total_literal(s.drop_last());
    }
}

/// The boats of a fleet of `n_pieces` pieces have `n_pieces` pieces in all.
pub proof fn lemma_fleet_sizes_total(n_pieces: nat)
    ensures
        total(fleet_sizes(n_pieces)) == n_pieces,
{
    lemma_total_complete_sets(n_pieces / 15);
    lemma_total_concat(complete_sets(n_pieces / 15), remainder_sizes(n_pieces % 15));
    lemma_total_literal(remainder_sizes(n_pieces % 15));
}

/// The boat of `size` pieces is a line of `size` pieces.
pub proof fn lemma_shape_pieces(size: nat)
    requires
        1 <= size <= 5,
    ensures
        shape_of_size(size).0 * shape_of_size(size).1 == size,
        shape_of_size(size).0 == 1 || shape_of_size(size).1 == 1,
{
    let (x_len, y_len) = shape_of_size(size);
    if x_len == 1 {
        assert(x_len * y_len == y_len);
    } else {
        assert(y_len == 1);
        assert(x_len * y_len == x_len);
    }
}

/// New boats of the shapes of `sizes`, each size from one to five, have as
/// many pieces as `sizes` sums to.
pub proof fn lemma_fleet_pieces(boats: Seq<Boat>, sizes: Seq<nat>)
    requires
        is_fleet(boats, sizes),
        forall|i: int| 0 <= i < sizes.len() ==> 1 <= #[trigger] sizes[i] <= 5,
    ensures
        fleet_pieces(boats) == total(sizes),
    decreases boats.len(),
{
    if boats.len() > 0 {
        let last = boats.len() - 1;
        let size = sizes[last];
        assert(boats[last]@.hits.len() == shape_of_size(size).0 * shape_of_size(size).1);
        assert(1 <= size <= 5);
        lemma_shape_pieces(size);
        assert(is_fleet(boats.drop_last(), sizes.drop_last())) by {
            assert forall|i: int| 0 <= i < last implies (#[trigger] boats.drop_last()[i])@
                == BoatView::fresh(
                boats.drop_last()[i]@.id,
                shape_of_size(sizes.drop_last()[i]).0,
                shape_of_size(sizes.drop_last()[i]).1,
            ) by {
                assert(boats.drop_last()[i] == boats[i]);
            }
        }
        lemma_fleet_pieces(boats.drop_last(), sizes.drop_last());
    }
}

/// Every boat of a fleet has between one and five pieces.
pub proof fn lemma_fleet_sizes_range(n_pieces: nat)
    ensures
        forall|i: int|
            0 <= i < fleet_sizes(n_pieces).len() ==> 1 <= #[trigger] fleet_sizes(n_pieces)[i] <= 5,
{
    lemma_complete_sets_range(n_pieces / 15);
}

proof fn lemma_complete_sets_range(sets: nat)
    ensures
        complete_sets(sets).len() == 5 * sets,
        forall|i: int|
            0 <= i < complete_sets(sets).len() ==> 1 <= #[trigger] complete_sets(sets)[i] <= 5,
    decreases sets,
{
    if sets > 0 {
        lemma_complete_sets_range((sets - 1) as nat);
    }
}

/// The mapping files just the identifiers of the boats, and finitely many.
pub proof fn lemma_fleet_map_ids(boats: Seq<Boat>)
    ensures
        fleet_map(boats).dom().finite(),
        forall|id: u128|
            fleet_map(boats).contains_key(id) <==> exists|i: int|
                0 <= i < boats.len() && (#[trigger] boats[i])@.id == id,
    decreases boats.len(),
{
    if boats.len() > 0 {
        let rest = boats.drop_first();
        lemma_fleet_map_ids(rest);
        assert forall|id: u128| fleet_map(boats).contains_key(id) implies exists|i: int|
            0 <= i < boats.len() && (#[trigger] boats[i])@.id == id by {
            if id == boats[0]@.id {
            } else {
                let i = choose|i: int| 0 <= i < rest.len() && (#[trigger] rest[i])@.id == id;
                assert(boats[i + 1]@.id == id);
            }
        }
        assert forall|id: u128|
            (exists|i: int|
                0 <= i < boats.len() && (#[trigger] boats[i])@.id == id) implies fleet_map(
            boats,
        ).contains_key(id) by {
            let i = choose|i: int| 0 <= i < boats.len() && (#[trigger] boats[i])@.id == id;
            if i > 0 {
                assert(rest[i - 1]@.id == id);
            }
        }
    }
}

/// The mapping of boats with pairwise distinct identifiers keeps every boat:
/// it has as many boats as were given, each under its identifier, and as
/// many pieces in all.
pub proof fn lemma_fleet_map_keeps_all(boats: Seq<Boat>)
    requires
        distinct_ids(boats),
    ensures
        fleet_map(boats).dom().finite(),
        fleet_map(boats).dom().len() == boats.len(),
        forall|i: int|
            0 <= i < boats.len() ==> fleet_map(boats).contains_key((#[trigger] boats[i])@.id)
                && fleet_map(boats)[boats[i]@.id] == boats[i],
        fleet_view_pieces(fleet_view(fleet_map(boats))) == fleet_pieces(boats),
    decreases boats.len(),
{
    broadcast use vstd::set::group_set_axioms;

    lemma_fleet_map_ids(boats);
    if boats.len() == 0 {
        assert(fleet_view(fleet_map(boats)).dom() =~= Set::<u128>::empty());
    } else {
        let rest = boats.drop_first();
        let first = boats[0]@.id;
        assert forall|i: int, j: int| 0 <= i < j < rest.len() implies (#[trigger] rest[i])@.id != (
        #[trigger] rest[j])@.id by {
            assert(boats[i + 1]@.id != boats[j + 1]@.id);
        }
        lemma_fleet_map_keeps_all(rest);
        lemma_fleet_map_ids(rest);
        assert(!fleet_map(rest).contains_key(first)) by {
            if fleet_map(rest).contains_key(first) {
                let i = choose|i: int| 0 <= i < rest.len() && (#[trigger] rest[i])@.id == first;
                assert(boats[0]@.id != boats[i + 1]@.id);
            }
        }
        assert forall|i: int| 0 <= i < boats.len() implies fleet_map(boats).contains_key(
            (#[trigger] boats[i])@.id,
        ) && fleet_map(boats)[boats[i]@.id] == boats[i] by {
            if i > 0 {
                assert(rest[i - 1] == boats[i]);
                assert(boats[0]@.id != boats[i]@.id);
            }
        }
        let views = fleet_view(fleet_map(boats));
        assert(views.dom() =~= fleet_map(boats).dom());
        lemma_fleet_view_pieces(views, first);
        assert(views.remove(first) =~= fleet_view(fleet_map(rest)));
        lemma_fleet_pieces_front(boats);
    }
}

/// The pieces of a fleet are those of its first boat and those of the rest.
pub proof fn lemma_fleet_pieces_front(boats: Seq<Boat>)
    requires
        boats.len() > 0,
    ensures
        fleet_pieces(boats) == boats[0]@.hits.len() + fleet_pieces(boats.drop_first()),
    decreases boats.len(),
{
    if boats.len() == 1 {
        assert(boats.drop_last() =~= boats.drop_first());
    } else {
        lemma_fleet_pieces_front(boats.drop_last());
        assert(boats.drop_last().drop_first() =~= boats.drop_first().drop_last());
        assert(boats.drop_first().last() == boats.last());
    }
}

/// In the mapping of well-formed boats every boat is well formed and filed
/// under its own identifier.
pub proof fn lemma_fleet_map_wf(boats: Seq<Boat>)
    requires
        forall|i: int| 0 <= i < boats.len() ==> (#[trigger] boats[i])@.wf(),
    ensures
        forall|id: u128| #[trigger]
            fleet_map(boats).contains_key(id) ==> fleet_map(boats)[id]@.wf() && fleet_map(
                boats,
            )[id]@.id == id,
    decreases boats.len(),
{
    if boats.len() > 0 {
        assert forall|i: int| 0 <= i < boats.drop_first().len() implies (
        #[trigger] boats.drop_first()[i])@.wf() by {
            assert(boats.drop_first()[i] == boats[i + 1]);
        }
        lemma_fleet_map_wf(boats.drop_first());
        let rest = fleet_map(boats.drop_first());
        assert forall|id: u128| #[trigger] fleet_map(boats).contains_key(id) implies fleet_map(
            boats,
        )[id]@.wf() && fleet_map(boats)[id]@.id == id by {
            assert(boats[0]@.wf());
            if id != boats[0]@.id {
                assert(rest.contains_key(id));
            }
        }
    }
}

/// New boats of the shapes of `sizes`, each size from one to five, are well
/// formed.
pub proof fn lemma_fleet_wf(boats: Seq<Boat>, sizes: Seq<nat>)
    requires
        is_fleet(boats, sizes),
        forall|i: int| 0 <= i < sizes.len() ==> 1 <= #[trigger] sizes[i] <= 5,
    ensures
        forall|i: int| 0 <= i < boats.len() ==> (#[trigger] boats[i])@.wf(),
{
    assert forall|i: int| 0 <= i < boats.len() implies (#[trigger] boats[i])@.wf() by {
        lemma_shape_pieces(sizes[i]);
    }
}

/// The number of pieces that each player gets on a board of `board_x_len` by
/// `board_y_len` cells.
pub fn get_n_boat_pieces_per_player(board_x_len: u32, board_y_len: u32) -> (n_pieces: u64)
    ensures
        n_pieces == pieces_per_player(board_x_len as nat, board_y_len as nat),
{
    assert(board_x_len * board_y_len <= u32::MAX * u32::MAX) by (nonlinear_arith)
        requires
            board_x_len <= u32::MAX,
            board_y_len <= u32::MAX,
    ;
    (board_x_len as u64) * (board_y_len as u64) / 5
}

/// One boat of each size from one to five, behind an empty boat that makes a
/// boat's position equal its size.
fn complete_set() -> (set: Vec<Boat>)
    ensures
        set.len() == 6,
        forall|size: int|
            0 <= size <= 5 ==> {
                &&& (#[trigger] set[size])@.x_len == shape_of_size(size as nat).0
                &&& set[size]@.y_len == shape_of_size(size as nat).1
            },
{
    let mut set: Vec<Boat> = Vec::new();
    set.push(Boat::new(0, 0));
    set.push(Boat::new(1, 1));
    set.push(Boat::new(2, 1));
    set.push(Boat::new(1, 3));
    set.push(Boat::new(4, 1));
    set.push(Boat::new(1, 5));
    set
}

/// Adds to `boats` a new boat of the shape of `set[size]`. Its identifier is
/// random; if that one is already taken in `used`, the boat's place in the
/// fleet is its identifier instead, which no random identifier equals.
fn push_clone(
    boats: &mut Vec<Boat>,
    used: &mut HashSet<u128>,
    set: &Vec<Boat>,
    size: usize,
    Ghost(sizes): Ghost<Seq<nat>>,
)
    requires
        set.len() == 6,
        1 <= size <= 5,
        set[size as int]@.x_len == shape_of_size(size as nat).0,
        set[size as int]@.y_len == shape_of_size(size as nat).1,
        is_fleet(old(boats)@, sizes),
        distinct_ids(old(boats)@),
        ids_in_use(old(boats)@, old(used)@),
    ensures
        is_fleet(final(boats)@, sizes.push(size as nat)),
        distinct_ids(final(boats)@),
        ids_in_use(final(boats)@, final(used)@),
{
    broadcast use vstd::std_specs::hash::group_hash_axioms;

    let place: usize = boats.len();
    let mut boat = set[size].clone();
    if used.contains(&boat.id()) {
        let x_len = set[size].x_len();
        let y_len = set[size].y_len();
        boat = Boat::with_id(place as u128, x_len, y_len);
    }
    let ghost id = boat@.id;
    assert(id & VERSION_VARIANT_MASK == RANDOM_UUID_MARK || id == place);
    proof {
        let low = place as u128;
        assert(low < 0x1_0000_0000_0000_0000u128 ==> low & VERSION_VARIANT_MASK
            != RANDOM_UUID_MARK) by (bit_vector);
        assert forall|i: int| 0 <= i < boats@.len() implies (#[trigger] boats@[i])@.id != id by {
            assert(used@.contains(boats@[i]@.id));
        }
    }
    used.insert(boat.id());
    boats.push(boat);
    proof {
        assert forall|i: int, j: int| 0 <= i < j < boats@.len() implies (#[trigger] boats@[i])@.id
            != (#[trigger] boats@[j])@.id by {
            if j < place {
                assert(old(boats)@[i]@.id != old(boats)@[j]@.id);
            } else {
                assert(old(boats)@[i]@.id != id);
            }
        }
        assert(boats@.len() == boats.len());
        assert forall|i: int| 0 <= i < boats@.len() implies {
            &&& used@.contains((#[trigger] boats@[i])@.id)
            &&& boats@[i]@.id & VERSION_VARIANT_MASK == RANDOM_UUID_MARK || boats@[i]@.id == i
        } by {
            if i < place {
                assert(old(used)@.contains(old(boats)@[i]@.id));
            }
        }
    }
}

/// Builds the fleet for `n_pieces` pieces: as many complete sets (one boat of
/// each size from one to five, fifteen pieces) as fit, then the boats that
/// the table gives for what remains. No two boats of the fleet share an
/// identifier.
pub fn create_boats(n_pieces: u64) -> (boats: Vec<Boat>)
    ensures
        is_fleet(boats@, fleet_sizes(n_pieces as nat)),
        fleet_pieces(boats@) == n_pieces,
        distinct_ids(boats@),
{
    let set = complete_set();
    let mut boats: Vec<Boat> = Vec::new();
    let mut used: HashSet<u128> = HashSet::new();
    let n_sets: u64 = n_pieces / COMPLETE_SET_PIECES;
    let ghost mut sizes: Seq<nat> = Seq::empty();
    let mut done: u64 = 0;
    while done < n_sets
        invariant
            done <= n_sets,
            set.len() == 6,
            forall|size: int|
                0 <= size <= 5 ==> {
                    &&& (#[trigger] set[size])@.x_len == shape_of_size(size as nat).0
                    &&& set[size]@.y_len == shape_of_size(size as nat).1
                },
            sizes == complete_sets(done as nat),
            is_fleet(boats@, sizes),
            distinct_ids(boats@),
            ids_in_use(boats@, used@),
        decreases n_sets - done,
    {
        push_clone(&mut boats, &mut used, &set, 1, Ghost(sizes));
        push_clone(&mut boats, &mut used, &set, 2, Ghost(sizes.push(1)));
        push_clone(&mut boats, &mut used, &set, 3, Ghost(sizes.push(1).push(2)));
        push_clone(&mut boats, &mut used, &set, 4, Ghost(sizes.push(1).push(2).push(3)));
        push_clone(&mut boats, &mut used, &set, 5, Ghost(sizes.push(1).push(2).push(3).push(4)));
        proof {
            let next = sizes.push(1).push(2).push(3).push(4).push(5);
            assert(next =~= sizes + seq![1nat, 2nat, 3nat, 4nat, 5nat]);
            sizes = next;
        }
        done = done + 1;
    }
    let ghost sets = sizes;
    let remainder: u64 = n_pieces % COMPLETE_SET_PIECES;
    if remainder == 1 {
        push_clone(&mut boats, &mut used, &set, 1, Ghost(sets));
    } else if remainder == 2 {
        push_clone(&mut boats, &mut used, &set, 2, Ghost(sets));
    } else if remainder == 3 {
        push_clone(&mut boats, &mut used, &set, 1, Ghost(sets));
        push_clone(&mut boats, &mut used, &set, 2, Ghost(sets.push(1)));
    } else if remainder == 4 {
        push_clone(&mut boats, &mut used, &set, 1, Ghost(sets));
        push_clone(&mut boats, &mut used, &set, 3, Ghost(sets.push(1)));
    } else if remainder == 5 {
        push_clone(&mut boats, &mut used, &set, 2, Ghost(sets));
        push_clone(&mut boats, &mut used, &set, 3, Ghost(sets.push(2)));
    } else if remainder == 6 {
        push_clone(&mut boats, &mut used, &set, 1, Ghost(sets));
        push_clone(&mut boats, &mut used, &set, 2, Ghost(sets.push(1)));
        push_clone(&mut boats, &mut used, &set, 3, Ghost(sets.push(1).push(2)));
    } else if remainder == 7 {
        push_clone(&mut boats, &mut used, &set, 3, Ghost(sets));
        push_clone(&mut boats, &mut used, &set, 4, Ghost(sets.push(3)));
    } else if remainder == 8 {
        push_clone(&mut boats, &mut used, &set, 1, Ghost(sets));
        push_clone(&mut boats, &mut used, &set, 3, Ghost(sets.push(1)));
        push_clone(&mut boats, &mut used, &set, 4, Ghost(sets.push(1).push(3)));
    } else if remainder == 9 {
        push_clone(&mut boats, &mut used, &set, 2, Ghost(sets));
        push_clone(&mut boats, &mut used, &set, 3, Ghost(sets.push(2)));
        push_clone(&mut boats, &mut used, &set, 4, Ghost(sets.push(2).push(3)));
    } else if remainder == 10 {
        push_clone(&mut boats, &mut used, &set, 1, Ghost(sets));
        push_clone(&mut boats, &mut used, &set, 2, Ghost(sets.push(1)));
        push_clone(&mut boats, &mut used, &set, 3, Ghost(sets.push(1).push(2)));
        push_clone(&mut boats, &mut used, &set, 4, Ghost(sets.push(1).push(2).push(3)));
    } else if remainder == 11 {
        push_clone(&mut boats, &mut used, &set, 1, Ghost(sets));
        push_clone(&mut boats, &mut used, &set, 2, Ghost(sets.push(1)));
        push_clone(&mut boats, &mut used, &set, 3, Ghost(sets.push(1).push(2)));
        push_clone(&mut boats, &mut used, &set, 5, Ghost(sets.push(1).push(2).push(3)));
    } else if remainder == 12 {
        push_clone(&mut boats, &mut used, &set, 1, Ghost(sets));
        push_clone(&mut boats, &mut used, &set, 2, Ghost(sets.push(1)));
        push_clone(&mut boats, &mut used, &set, 4, Ghost(sets.push(1).push(2)));
        push_clone(&mut boats, &mut used, &set, 5, Ghost(sets.push(1).push(2).push(4)));
    } else if remainder == 13 {
        push_clone(&mut boats, &mut used, &set, 1, Ghost(sets));
        push_clone(&mut boats, &mut used, &set, 3, Ghost(sets.push(1)));
        push_clone(&mut boats, &mut used, &set, 4, Ghost(sets.push(1).push(3)));
        push_clone(&mut boats, &mut used, &set, 5, Ghost(sets.push(1).push(3).push(4)));
    } else if remainder == 14 {
        push_clone(&mut boats, &mut used, &set, 2, Ghost(sets));
        push_clone(&mut boats, &mut used, &set, 3, Ghost(sets.push(2)));
        push_clone(&mut boats, &mut used, &set, 4, Ghost(sets.push(2).push(3)));
        push_clone(&mut boats, &mut used, &set, 5, Ghost(sets.push(2).push(3).push(4)));
    }
    proof {
        let all = fleet_sizes(n_pieces as nat);
        let rest = remainder_sizes(remainder as nat);
        assert(all == sets + rest);
        assert(boats@.len() == all.len());
        assert forall|i: int| 0 <= i < boats@.len() implies (#[trigger] boats@[i])@
            == BoatView::fresh(
            boats@[i]@.id,
            shape_of_size(all[i]).0,
            shape_of_size(all[i]).1,
        ) by {
            if i >= sets.len() {
                assert(all[i] == rest[i - sets.len()]);
            }
        }
        lemma_fleet_sizes_total(n_pieces as nat);
        lemma_fleet_sizes_range(n_pieces as nat);
        lemma_fleet_pieces(boats@, all);
    }
    boats
}

/// Files the boats under their identifiers. Where two boats share an
/// identifier, the one that comes first in `boats` is kept.
pub fn boats_vec_to_map(boats: Vec<Boat>) -> (map: HashMap<u128, Boat>)
    ensures
        map@ == fleet_map(boats@),
{
    broadcast use vstd::std_specs::hash::group_hash_axioms;

    let mut boats = boats;
    let ghost all = boats@;
    let mut map: HashMap<u128, Boat> = HashMap::new();
    while !boats.is_empty()
        invariant
            boats@.len() <= all.len(),
            boats@ == all.take(boats@.len() as int),
            map@ == fleet_map(all.skip(boats@.len() as int)),
        decreases boats@.len(),
    {
        let ghost k = boats@.len() as int;
        match boats.pop() {
            Some(boat) => {
                map.insert(boat.id(), boat);
                proof {
                    assert(boat == all[k - 1]);
                    assert(all.skip(k - 1).drop_first() =~= all.skip(k));
                    assert(boats@ =~= all.take(k - 1));
                }
            },
            None => {},
        }
    }
    proof {
        assert(all.skip(0) =~= all);
    }
    map
}

} // verus!
