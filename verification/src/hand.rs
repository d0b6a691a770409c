use vstd::prelude::*;

use crate::tile::Tile;
use crate::tilebag::TileBag;

verus! {

/// Index of the first tile showing exactly the letter `c`, or -1.
pub open spec fn first_letter_index(tiles: Seq<Tile>, c: char) -> int
    decreases tiles.len(),
{
    if tiles.len() == 0 {
        -1
    } else if tiles[0].letter == c {
        0
    } else {
        let r = first_letter_index(tiles.skip(1), c);
        if r < 0 {
            -1
        } else {
            r + 1
        }
    }
}

/// Index of the first wildcard tile, or -1.
pub open spec fn first_wildcard_index(tiles: Seq<Tile>) -> int
    decreases tiles.len(),
{
    if tiles.len() == 0 {
        -1
    } else if tiles[0].wildcard {
        0
    } else {
        let r = first_wildcard_index(tiles.skip(1));
        if r < 0 {
            -1
        } else {
            r + 1
        }
    }
}

/// The tile greedy matching picks for `c`: the first exact letter match,
/// else the first wildcard, else none (-1).
pub open spec fn pick_index(tiles: Seq<Tile>, c: char) -> int {
    if first_letter_index(tiles, c) >= 0 {
        first_letter_index(tiles, c)
    } else {
        first_wildcard_index(tiles)
    }
}

/// Greedy resolution of requested letters against a pool of tiles: for
/// each letter in turn, set the picked tile aside.  The result holds the
/// picked tiles in resolution order and the tiles left over; it is `None`
/// when some letter finds neither an exact match nor a spare wildcard.
/// Matching is first-found, with no backtracking across assignments.
pub open spec fn supply(tiles: Seq<Tile>, letters: Seq<char>) -> Option<(Seq<Tile>, Seq<Tile>)>
    decreases letters.len(),
{
    if letters.len() == 0 {
        Some((Seq::empty(), tiles))
    } else {
        let j = pick_index(tiles, letters[0]);
        if j < 0 {
            None
        } else {
            match supply(tiles.remove(j), letters.skip(1)) {
                Some(pr) => Some((seq![tiles[j]] + pr.0, pr.1)),
                None => None,
            }
        }
    }
}

proof fn lemma_first_letter_index_props(tiles: Seq<Tile>, c: char)
    ensures
        -1 <= first_letter_index(tiles, c) < tiles.len(),
        first_letter_index(tiles, c) >= 0 ==> tiles[first_letter_index(tiles, c)].letter == c,
        forall|m: int|
            0 <= m < first_letter_index(tiles, c) ==> (#[trigger] tiles[m]).letter != c,
        first_letter_index(tiles, c) == -1 ==> forall|m: int|
            0 <= m < tiles.len() ==> (#[trigger] tiles[m]).letter != c,
    decreases tiles.len(),
{
    if tiles.len() == 0 {
    } else if tiles[0].letter == c {
    } else {
        lemma_first_letter_index_props(tiles.skip(1), c);
        let r = first_letter_index(tiles, c);
        assert forall|m: int| 0 <= m < r implies (#[trigger] tiles[m]).letter != c by {
            if m > 0 {
                assert(tiles.skip(1)[m - 1] == tiles[m]);
            }
        }
        if r == -1 {
            assert forall|m: int| 0 <= m < tiles.len() implies (#[trigger] tiles[m]).letter
                != c by {
                if m > 0 {
                    assert(tiles.skip(1)[m - 1] == tiles[m]);
                }
            }
        }
    }
}

proof fn lemma_first_wildcard_index_props(tiles: Seq<Tile>)
    ensures
        -1 <= first_wildcard_index(tiles) < tiles.len(),
        first_wildcard_index(tiles) >= 0 ==> tiles[first_wildcard_index(tiles)].wildcard,
        forall|m: int| 0 <= m < first_wildcard_index(tiles) ==> !(#[trigger] tiles[m]).wildcard,
        first_wildcard_index(tiles) == -1 ==> forall|m: int|
            0 <= m < tiles.len() ==> !(#[trigger] tiles[m]).wildcard,
    decreases tiles.len(),
{
    if tiles.len() == 0 {
    } else if tiles[0].wildcard {
    } else {
        lemma_first_wildcard_index_props(tiles.skip(1));
        let r = first_wildcard_index(tiles);
        assert forall|m: int| 0 <= m < r implies !(#[trigger] tiles[m]).wildcard by {
            if m > 0 {
                assert(tiles.skip(1)[m - 1] == tiles[m]);
            }
        }
        if r == -1 {
            assert forall|m: int| 0 <= m < tiles.len() implies !(#[trigger] tiles[m]).wildcard by {
                if m > 0 {
                    assert(tiles.skip(1)[m - 1] == tiles[m]);
                }
            }
        }
    }
}

/// Position of the first tile showing exactly `c`.
fn position_letter(tiles: &Vec<Tile>, c: char) -> (r: Option<usize>)
    ensures
        match r {
            Some(j) => j as int == first_letter_index(tiles@, c),
            None => first_letter_index(tiles@, c) == -1,
        },
{
    proof {
        lemma_first_letter_index_props(tiles@, c);
    }
    let n = tiles.len();
    let mut j: usize = 0;
    while j < n
        invariant
            j <= n,
            n == tiles@.len(),
            forall|m: int| 0 <= m < j ==> (#[trigger] tiles@[m]).letter != c,
            -1 <= first_letter_index(tiles@, c) < tiles@.len(),
            first_letter_index(tiles@, c) >= 0 ==> tiles@[first_letter_index(tiles@, c)].letter
                == c,
            forall|m: int|
                0 <= m < first_letter_index(tiles@, c) ==> (#[trigger] tiles@[m]).letter != c,
            first_letter_index(tiles@, c) == -1 ==> forall|m: int|
                0 <= m < tiles@.len() ==> (#[trigger] tiles@[m]).letter != c,
        decreases n - j,
    {
        if tiles[j].letter() == c {
            return Some(j);
        }
        j = j + 1;
    }
    None
}

/// Position of the first wildcard tile.
fn position_wildcard(tiles: &Vec<Tile>) -> (r: Option<usize>)
    ensures
        match r {
            Some(j) => j as int == first_wildcard_index(tiles@),
            None => first_wildcard_index(tiles@) == -1,
        },
{
    proof {
        lemma_first_wildcard_index_props(tiles@);
    }
    let n = tiles.len();
    let mut j: usize = 0;
    while j < n
        invariant
            j <= n,
            n == tiles@.len(),
            forall|m: int| 0 <= m < j ==> !(#[trigger] tiles@[m]).wildcard,
            -1 <= first_wildcard_index(tiles@) < tiles@.len(),
            first_wildcard_index(tiles@) >= 0 ==> tiles@[first_wildcard_index(tiles@)].wildcard,
            forall|m: int| 0 <= m < first_wildcard_index(tiles@) ==> !(#[trigger] tiles@[m]).wildcard,
            first_wildcard_index(tiles@) == -1 ==> forall|m: int|
                0 <= m < tiles@.len() ==> !(#[trigger] tiles@[m]).wildcard,
        decreases n - j,
    {
        if tiles[j].wildcard() {
            return Some(j);
        }
        j = j + 1;
    }
    None
}

/// A copy of a vector of tiles.
fn copy_tiles(v: &Vec<Tile>) -> (r: Vec<Tile>)
    ensures
        r@ == v@,
{
    let n = v.len();
    let mut r: Vec<Tile> = Vec::new();
    for i in 0..n
        invariant
            n == v@.len(),
            r@ == v@.subrange(0, i as int),
    {
        r.push(v[i]);
        proof {
            assert(r@ =~= v@.subrange(0, i as int + 1));
        }
    }
    proof {
        assert(v@.subrange(0, n as int) =~= v@);
    }
    r
}

/// Shortening a prefix of `oldb` by its last element gives the shorter
/// prefix of `oldb`.
proof fn lemma_prefix_shrink(oldb: Seq<Tile>, b1: Seq<Tile>, b2: Seq<Tile>)
    requires
        b1.len() <= oldb.len(),
        b1 == oldb.subrange(0, b1.len() as int),
        b1.len() > 0,
        b2 == b1.drop_last(),
    ensures
        b2 == oldb.subrange(0, b2.len() as int),
{
    assert forall|i: int| 0 <= i < b2.len() implies b2[i] == oldb[i] by {
        assert(b2[i] == b1[i]);
        assert(oldb.subrange(0, b1.len() as int)[i] == oldb[i]);
    }
    assert(b2 =~= oldb.subrange(0, b2.len() as int));
}

/// Appending the next tile popped from the bag extends the reversed
/// drawn suffix by one.
proof fn lemma_draw_step(olds: Seq<Tile>, oldb: Seq<Tile>, s1: Seq<Tile>, s2: Seq<Tile>, lb: int)
    requires
        1 <= lb <= oldb.len(),
        s1 == olds + oldb.subrange(lb, oldb.len() as int).reverse(),
        s2 == s1.push(oldb.subrange(0, lb).last()),
    ensures
        s2 == olds + oldb.subrange(lb - 1, oldb.len() as int).reverse(),
{
    let oldl = oldb.len() as int;
    let t1 = oldb.subrange(lb, oldl).reverse();
    let t2 = oldb.subrange(lb - 1, oldl).reverse();
    assert(oldb.subrange(0, lb).last() == oldb[lb - 1]);
    assert(t2.len() == oldl - lb + 1);
    assert forall|m: int| 0 <= m < t2.len() implies t2[m] == t1.push(oldb[lb - 1])[m] by {
        assert(t2[m] == oldb.subrange(lb - 1, oldl)[oldl - lb - m]);
        assert(oldb.subrange(lb - 1, oldl)[oldl - lb - m] == oldb[oldl - 1 - m]);
        if m < t2.len() - 1 {
            assert(t1[m] == oldb.subrange(lb, oldl)[oldl - lb - 1 - m]);
            assert(oldb.subrange(lb, oldl)[oldl - lb - 1 - m] == oldb[oldl - 1 - m]);
        }
    }
    assert(t2 =~= t1.push(oldb[lb - 1]));
    assert(s2 =~= olds + t2);
}

/// A player's rack: at most seven tiles.
pub struct Hand {
    tiles: Vec<Tile>,
}

impl View for Hand {
    type V = Seq<Tile>;

    closed spec fn view(&self) -> Seq<Tile> {
        self.tiles@
    }
}

impl Hand {
    /// Create a new, empty hand.
    pub fn new() -> (h: Hand)
        ensures
            h@ == Seq::<Tile>::empty(),
    {
        Hand { tiles: Vec::new() }
    }

    /// Refill the hand up to seven tiles from the bag; if the bag runs out
    /// partway the hand simply stays short.  Tiles already held are kept,
    /// and the drawn ones are taken from the top of the bag in order.
    pub fn draw(&mut self, bag: &mut TileBag)
        requires
            old(self)@.len() <= 7,
        ensures
            final(self)@.len() <= 7,
            final(self)@.len() == 7 || final(bag)@.len() == 0,
            final(bag)@ == old(bag)@.subrange(0, final(bag)@.len() as int),
            final(self)@ == old(self)@ + old(bag)@.subrange(
                final(bag)@.len() as int,
                old(bag)@.len() as int,
            ).reverse(),
    {
        proof {
            assert(old(bag)@.subrange(0, old(bag)@.len() as int) =~= old(bag)@);
            assert(old(bag)@.subrange(old(bag)@.len() as int, old(bag)@.len() as int).reverse()
                =~= Seq::<Tile>::empty());
            assert(old(self)@ + Seq::<Tile>::empty() =~= old(self)@);
        }
        while self.tiles.len() < 7
            invariant
                self@.len() <= 7,
                bag@.len() <= old(bag)@.len(),
                bag@ == old(bag)@.subrange(0, bag@.len() as int),
                self@ == old(self)@ + old(bag)@.subrange(
                    bag@.len() as int,
                    old(bag)@.len() as int,
                ).reverse(),
            ensures
                self@.len() == 7 || bag@.len() == 0,
                bag@.len() <= old(bag)@.len(),
                bag@ == old(bag)@.subrange(0, bag@.len() as int),
                self@ == old(self)@ + old(bag)@.subrange(
                    bag@.len() as int,
                    old(bag)@.len() as int,
                ).reverse(),
            decreases bag@.len(),
        {
            let ghost bag_before = bag@;
            let picked = bag.pick();
            match picked {
                None => {
                    break ;
                },
                Some(t) => {
                    let ghost self_before = self@;
                    self.tiles.push(t);
                    proof {
                        lemma_prefix_shrink(old(bag)@, bag_before, bag@);
                        lemma_draw_step(
                            old(self)@,
                            old(bag)@,
                            self_before,
                            self@,
                            bag_before.len() as int,
                        );
                    }
                },
            }
        }
    }

    /// Tell whether the hand can supply every requested letter, matching
    /// each against a different tile: an exact letter match first, else a
    /// wildcard.  The hand itself is never changed.
    pub fn contains(&self, elem: &Vec<char>) -> (r: bool)
        ensures
            r == (supply(self@, elem@) is Some),
    {
        let mut tmp = copy_tiles(&self.tiles);
        let n = elem.len();
        proof {
            assert(elem@.skip(0) =~= elem@);
        }
        for k in 0..n
            invariant
                n == elem@.len(),
                (supply(self@, elem@) is Some) <==> (supply(tmp@, elem@.skip(k as int)) is Some),
        {
            let ghost letters = elem@.skip(k as int);
            proof {
                assert(letters[0] == elem@[k as int]);
                assert(letters.skip(1) =~= elem@.skip(k as int + 1));
                lemma_first_letter_index_props(tmp@, elem@[k as int]);
                lemma_first_wildcard_index_props(tmp@);
            }
            let c = elem[k];
            match position_letter(&tmp, c) {
                Some(j) => {
                    tmp.remove(j);
                },
                None => {
                    match position_wildcard(&tmp) {
                        Some(j) => {
                            tmp.remove(j);
                        },
                        None => {
                            proof {
                                assert(pick_index(tmp@, letters[0]) < 0);
                                assert(supply(tmp@, letters) is None);
                            }
                            return false;
                        },
                    }
                },
            }
        }
        proof {
            assert(elem@.skip(n as int).len() == 0);
            assert(supply(tmp@, elem@.skip(n as int)) is Some);
        }
        true
    }

    /// Remove the requested letters' tiles and return them, in the same
    /// greedy resolution order that `contains` uses: all or nothing.  When
    /// the hand cannot supply the letters — or nothing was requested —
    /// nothing is returned and the hand is left exactly as it was.
    pub fn remove(&mut self, remove: &Vec<char>) -> (r: Option<Vec<Tile>>)
        ensures
            supply(old(self)@, remove@) is None ==> r is None && final(self)@ == old(self)@,
            remove@.len() == 0 ==> r is None && final(self)@ == old(self)@,
            supply(old(self)@, remove@) is Some && remove@.len() > 0 ==> {
                &&& r is Some
                &&& r.unwrap()@ == supply(old(self)@, remove@).unwrap().0
                &&& final(self)@ == supply(old(self)@, remove@).unwrap().1
            },
    {
        if !self.contains(remove) {
            return None;
        }
        let ghost total = supply(old(self)@, remove@);
        let mut ret: Vec<Tile> = Vec::new();
        let n = remove.len();
        proof {
            assert(remove@.skip(0) =~= remove@);
            assert(Seq::<Tile>::empty() + total.unwrap().0 =~= total.unwrap().0);
        }
        for k in 0..n
            invariant
                n == remove@.len(),
                total == supply(old(self)@, remove@),
                total is Some,
                supply(self@, remove@.skip(k as int)) is Some,
                ret@.len() == k,
                total.unwrap().0 == ret@ + supply(self@, remove@.skip(k as int)).unwrap().0,
                total.unwrap().1 == supply(self@, remove@.skip(k as int)).unwrap().1,
        {
            let ghost letters = remove@.skip(k as int);
            let ghost pool = self@;
            proof {
                assert(letters[0] == remove@[k as int]);
                assert(letters.skip(1) =~= remove@.skip(k as int + 1));
                lemma_first_letter_index_props(pool, remove@[k as int]);
                lemma_first_wildcard_index_props(pool);
            }
            let c = remove[k];
            let j = match position_letter(&self.tiles, c) {
                Some(j) => j,
                None => {
                    match position_wildcard(&self.tiles) {
                        Some(j) => j,
                        None => {
                            proof {
                                assert(supply(pool, letters) is None);
                            }
                            // contains said yes, so a match always exists
                            unreached()
                        },
                    }
                },
            };
            proof {
                assert(j as int == pick_index(pool, letters[0]));
            }
            let ghost ret_before = ret@;
            let t = self.tiles.remove(j);
            ret.push(t);
            proof {
                assert(t == pool[j as int]);
                assert(self@ == pool.remove(j as int));
                let rest = supply(self@, remove@.skip(k as int + 1)).unwrap().0;
                assert(ret_before + (seq![t] + rest) =~= ret@ + rest);
            }
        }
        proof {
            assert(remove@.skip(n as int).len() == 0);
            assert(total.unwrap().0 =~= ret@);
        }
        if ret.len() > 0 {
            Some(ret)
        } else {
            None
        }
    }

    /// Get a copy of the tiles in hand.
    pub fn get(&self) -> (r: Vec<Tile>)
        ensures
            r@ == self@,
    {
        copy_tiles(&self.tiles)
    }
}

} // verus!
