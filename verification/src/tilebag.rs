use vstd::prelude::*;

use crate::config::{TileInfo, TileSet};
use crate::tile::Tile;
use vstd::multiset::Multiset;

verus! {

broadcast use vstd::seq_lib::group_to_multiset_ensures;

/// The bag of undrawn tiles.  Its content is randomised at construction,
/// so only the multiset of tiles it holds is determined.
pub struct TileBag {
    tiles: Vec<Tile>,
}

impl View for TileBag {
    type V = Seq<Tile>;

    closed spec fn view(&self) -> Seq<Tile> {
        self.tiles@
    }
}

/// `n` copies of one tile.
pub open spec fn repeat_tile(t: Tile, n: nat) -> Multiset<Tile>
    decreases n,
{
    if n == 0 {
        Multiset::empty()
    } else {
        repeat_tile(t, (n - 1) as nat).insert(t)
    }
}

/// The multiset of tiles a tile set describes: each entry's tile, with its
/// multiplicity.
pub open spec fn tile_multiset(infos: Seq<TileInfo>) -> Multiset<Tile>
    decreases infos.len(),
{
    if infos.len() == 0 {
        Multiset::empty()
    } else {
        tile_multiset(infos.drop_last()).add(
            repeat_tile(infos.last().tile, infos.last().occurences as nat),
        )
    }
}

/// Relies on rand::random_range over the inclusive range `0..=bound`,
/// which is never empty: the draw is at most `bound`.
#[verifier::external_body]
fn random_position(bound: usize) -> (r: usize)
    ensures
        r <= bound,
{
    rand::random_range(0..=bound)
}

/// Inserting anywhere in a sequence adds one copy to its multiset.
proof fn lemma_insert_to_multiset(s: Seq<Tile>, i: int, t: Tile)
    requires
        0 <= i <= s.len(),
    ensures
        s.insert(i, t).to_multiset() == s.to_multiset().insert(t),
{
    let s2 = s.insert(i, t);
    s.insert_ensures(i, t);
    assert(s2.remove(i) =~= s) by {
        s2.remove_ensures(i);
    }
    assert(s2[i] == t);
    assert(s2.contains(t));
    assert(s2.to_multiset().count(t) > 0);
    assert(s2.remove(i).to_multiset() =~= s2.to_multiset().remove(s2[i]));
    assert(s.to_multiset() == s2.to_multiset().remove(t));
    assert(s2.to_multiset() =~= s.to_multiset().insert(t));
}

impl TileBag {
    /// Create a bag holding every tile the set describes, in random order.
    pub fn new(ts: &TileSet) -> (bag: TileBag)
        ensures
            bag@.to_multiset() == tile_multiset(ts@),
    {
        let infos = ts.infos();
        let n = infos.len();
        let mut tiles: Vec<Tile> = Vec::new();

        for idx in 0..n
            invariant
                n == ts@.len(),
                infos@ == ts@,
                tiles@.to_multiset() == tile_multiset(ts@.subrange(0, idx as int)),
        {
            let count = infos[idx].occurences();
            let tile = infos[idx].tile();
            for m in 0..count
                invariant
                    n == ts@.len(),
                    infos@ == ts@,
                    idx < n,
                    count == ts@[idx as int].occurences,
                    tile == ts@[idx as int].tile,
                    tiles@.to_multiset() == tile_multiset(ts@.subrange(0, idx as int)).add(
                        repeat_tile(tile, m as nat),
                    ),
            {
                let ghost before = tiles@;
                let pos = random_position(tiles.len());
                tiles.insert(pos, tile);
                proof {
                    lemma_insert_to_multiset(before, pos as int, tile);
                    assert(repeat_tile(tile, (m + 1) as nat) == repeat_tile(tile, m as nat).insert(
                        tile,
                    ));
                    assert(tiles@.to_multiset() =~= tile_multiset(ts@.subrange(0, idx as int)).add(
                        repeat_tile(tile, (m + 1) as nat),
                    ));
                }
            }
            proof {
                let pref = ts@.subrange(0, idx as int + 1);
                assert(pref.drop_last() =~= ts@.subrange(0, idx as int));
                assert(pref.last() == ts@[idx as int]);
                assert(tile_multiset(pref) == tile_multiset(ts@.subrange(0, idx as int)).add(
                    repeat_tile(tile, count as nat),
                ));
            }
        }
        proof {
            assert(ts@.subrange(0, n as int) =~= ts@);
        }
        TileBag { tiles }
    }

    /// Whether the bag is empty.
    pub fn is_empty(&self) -> (r: bool)
        ensures
            r == (self@.len() == 0),
    {
        self.tiles.len() == 0
    }

    /// Take a tile from the bag; `None` once the bag is empty.
    pub fn pick(&mut self) -> (r: Option<Tile>)
        ensures
            old(self)@.len() == 0 ==> r is None && final(self)@ == old(self)@,
            old(self)@.len() > 0 ==> r == Some(old(self)@.last()) && final(self)@ == old(
                self,
            )@.drop_last(),
    {
        self.tiles.pop()
    }
}

} // verus!
