use vstd::prelude::*;

use crate::tile::Tile;
use vstd::string::StrSliceExecFns;

verus! {

/// Whitespace that separates the fields of a tile-set line.
pub open spec fn is_space(c: char) -> bool {
    c == ' ' || c == '\t' || c == '\r'
}

/// Walk of a line from position `i` with the partial field `cur` in hand:
/// the fields still to come.
pub open spec fn fields_acc(s: Seq<char>, i: int, cur: Seq<char>) -> Seq<Seq<char>>
    decreases s.len() - i,
{
    if i < 0 || i >= s.len() {
        if cur.len() == 0 {
            Seq::empty()
        } else {
            seq![cur]
        }
    } else if is_space(s[i]) {
        if cur.len() == 0 {
            fields_acc(s, i + 1, Seq::empty())
        } else {
            seq![cur] + fields_acc(s, i + 1, Seq::empty())
        }
    } else {
        fields_acc(s, i + 1, cur.push(s[i]))
    }
}

/// The whitespace-separated fields of a line, in order.
pub open spec fn fields_of(s: Seq<char>) -> Seq<Seq<char>> {
    fields_acc(s, 0, Seq::empty())
}

/// Whether `c` is a decimal digit, by its code point.
pub open spec fn is_digit(c: char) -> bool {
    48 <= c as u32 <= 57
}

/// Whether `t` is a nonempty run of decimal digits.
pub open spec fn is_decimal(t: Seq<char>) -> bool {
    t.len() > 0 && forall|j: int| 0 <= j < t.len() ==> is_digit(#[trigger] t[j])
}

/// The number a run of decimal digits denotes.
pub open spec fn decimal_value(t: Seq<char>) -> int
    decreases t.len(),
{
    if t.len() == 0 {
        0
    } else {
        decimal_value(t.drop_last()) * 10 + (t.last() as u32 - 48)
    }
}

/// The letter reserved for the blank tile, also known as the joker.
pub const WILDCARD: char = '*';

/// How many copies of one tile the set holds, and the tile itself.
#[derive(Clone, Copy, Debug, PartialEq, Eq, Structural)]
pub struct TileInfo {
    pub tile: Tile,
    pub occurences: u32,
}

/// The whole tile distribution: every kind of tile with its multiplicity.
pub struct TileSet {
    infos: Vec<TileInfo>,
}

impl View for TileSet {
    type V = Seq<TileInfo>;

    closed spec fn view(&self) -> Seq<TileInfo> {
        self.infos@
    }
}

/// The points of the first entry whose tile shows `letter`; 0 when no
/// entry does.
pub open spec fn points_of(infos: Seq<TileInfo>, letter: char) -> u8
    decreases infos.len(),
{
    if infos.len() == 0 {
        0
    } else if infos[0].tile.letter == letter {
        infos[0].tile.points
    } else {
        points_of(infos.skip(1), letter)
    }
}

/// Why a tile-set line was rejected.  Any such line aborts the set-up:
/// the game cannot start without a tile distribution.
#[derive(Clone, Copy, Debug, PartialEq, Eq, Structural)]
pub enum TileSetError {
    /// The line does not hold exactly three fields.
    WrongFieldCount,
    /// The first field is not a single character.
    BadLetter,
    /// The second field is not a number of occurrences.
    BadOccurrences,
    /// The third field is not a point value.
    BadScore,
}

/// What a tile-set line means: three whitespace-separated fields — a
/// single character, an occurrence count and a point value.
pub open spec fn parse_line_spec(s: Seq<char>) -> Result<TileInfo, TileSetError> {
    let toks = fields_of(s);
    if toks.len() != 3 {
        Err(TileSetError::WrongFieldCount)
    } else if toks[0].len() != 1 {
        Err(TileSetError::BadLetter)
    } else if !(is_decimal(toks[1]) && decimal_value(toks[1]) <= u32::MAX) {
        Err(TileSetError::BadOccurrences)
    } else if !(is_decimal(toks[2]) && decimal_value(toks[2]) <= u8::MAX) {
        Err(TileSetError::BadScore)
    } else {
        Ok(
            TileInfo {
                tile: Tile {
                    letter: toks[0][0],
                    wildcard: toks[0][0] == WILDCARD,
                    points: decimal_value(toks[2]) as u8,
                },
                occurences: decimal_value(toks[1]) as u32,
            },
        )
    }
}

/// The whitespace-separated fields of a line, as vectors of characters.
fn split_fields(line: &str) -> (r: Vec<Vec<char>>)
    ensures
        r@.len() == fields_of(line@).len(),
        forall|j: int| 0 <= j < r@.len() ==> (#[trigger] r@[j])@ == fields_of(line@)[j],
{
    let n = line.unicode_len();
    let mut out: Vec<Vec<char>> = Vec::new();
    let mut cur: Vec<char> = Vec::new();
    let ghost mut done: Seq<Seq<char>> = Seq::empty();
    proof {
        assert(Seq::<Seq<char>>::empty() + fields_acc(line@, 0, Seq::empty()) =~= fields_of(
            line@,
        ));
    }
    for i in 0..n
        invariant
            n == line@.len(),
            out@.len() == done.len(),
            forall|j: int| 0 <= j < done.len() ==> (#[trigger] out@[j])@ == done[j],
            fields_of(line@) == done + fields_acc(line@, i as int, cur@),
    {
        let c = line.get_char(i);
        let space = c == ' ' || c == '\t' || c == '\r';
        if space {
            if cur.len() > 0 {
                let ghost cur_view = cur@;
                out.push(cur);
                proof {
                    done = done.push(cur_view);
                    assert(fields_acc(line@, i as int, cur_view) == seq![cur_view] + fields_acc(
                        line@,
                        i as int + 1,
                        Seq::empty(),
                    ));
                    assert(done.drop_last() + (seq![cur_view] + fields_acc(
                        line@,
                        i as int + 1,
                        Seq::empty(),
                    )) =~= done + fields_acc(line@, i as int + 1, Seq::empty()));
                }
                cur = Vec::new();
            } else {
                proof {
                    assert(cur@ =~= Seq::<char>::empty());
                    assert(fields_acc(line@, i as int, cur@) == fields_acc(
                        line@,
                        i as int + 1,
                        cur@,
                    ));
                }
            }
        } else {
            let ghost cur_view = cur@;
            cur.push(c);
            proof {
                assert(fields_acc(line@, i as int, cur_view) == fields_acc(
                    line@,
                    i as int + 1,
                    cur_view.push(line@[i as int]),
                ));
            }
        }
    }
    if cur.len() > 0 {
        out.push(cur);
        proof {
            done = done.push(cur@);
            assert(fields_of(line@) =~= done);
        }
    } else {
        proof {
            assert(fields_of(line@) =~= done);
        }
    }
    out
}

proof fn lemma_decimal_nonneg(t: Seq<char>)
    requires
        forall|j: int| 0 <= j < t.len() ==> is_digit(#[trigger] t[j]),
    ensures
        decimal_value(t) >= 0,
    decreases t.len(),
{
    if t.len() > 0 {
        assert(forall|j: int| 0 <= j < t.drop_last().len() ==> is_digit(#[trigger] t.drop_last()[j]));
        lemma_decimal_nonneg(t.drop_last());
    }
}

proof fn lemma_decimal_prefix_le(t: Seq<char>, m: int)
    requires
        forall|j: int| 0 <= j < t.len() ==> is_digit(#[trigger] t[j]),
        0 <= m <= t.len(),
    ensures
        decimal_value(t.subrange(0, m)) <= decimal_value(t),
    decreases t.len(),
{
    if m == t.len() {
        assert(t.subrange(0, m) =~= t);
    } else {
        let d = t.drop_last();
        assert(forall|j: int| 0 <= j < d.len() ==> is_digit(#[trigger] d[j]));
        assert(d.subrange(0, m) =~= t.subrange(0, m));
        lemma_decimal_prefix_le(d, m);
        lemma_decimal_nonneg(d);
    }
}

/// Parse a field as a decimal number that fits a `u32`.
fn parse_u32_digits(t: &Vec<char>) -> (r: Option<u32>)
    ensures
        match r {
            Some(v) => is_decimal(t@) && v as int == decimal_value(t@),
            None => !(is_decimal(t@) && decimal_value(t@) <= u32::MAX),
        },
{
    let n = t.len();
    if n == 0 {
        return None;
    }
    let mut acc: u64 = 0;
    proof {
        assert(decimal_value(t@.subrange(0, 0)) == 0);
    }
    for j in 0..n
        invariant
            n == t@.len(),
            forall|m: int| 0 <= m < j ==> is_digit(#[trigger] t@[m]),
            acc as int == decimal_value(t@.subrange(0, j as int)),
            acc <= u32::MAX as u64,
    {
        let c = t[j];
        let u = c as u32;
        if u < 48 || u > 57 {
            proof {
                assert(!is_digit(t@[j as int]));
            }
            return None;
        }
        let d = (u - 48) as u64;
        proof {
            assert(is_digit(t@[j as int]));
            assert(d as int == t@[j as int] as u32 - 48);
        }
        acc = acc * 10 + d;
        proof {
            let pref = t@.subrange(0, j as int + 1);
            assert(pref.drop_last() =~= t@.subrange(0, j as int));
            assert(pref.last() == t@[j as int]);
        }
        if acc > u32::MAX as u64 {
            proof {
                if is_decimal(t@) {
                    lemma_decimal_prefix_le(t@, j as int + 1);
                }
            }
            return None;
        }
    }
    proof {
        assert(t@.subrange(0, n as int) =~= t@);
    }
    Some(acc as u32)
}

impl TileInfo {
    /// Parse one tile-set line: `<letter> <occurrences> <score>`.
    pub fn from_line(line: &str) -> (r: Result<TileInfo, TileSetError>)
        ensures
            r == parse_line_spec(line@),
    {
        let toks = split_fields(line);
        if toks.len() != 3 {
            return Err(TileSetError::WrongFieldCount);
        }
        if toks[0].len() != 1 {
            return Err(TileSetError::BadLetter);
        }
        let letter = toks[0][0];
        let occurences = match parse_u32_digits(&toks[1]) {
            None => {
                return Err(TileSetError::BadOccurrences);
            },
            Some(v) => v,
        };
        let score = match parse_u32_digits(&toks[2]) {
            None => {
                return Err(TileSetError::BadScore);
            },
            Some(v) => v,
        };
        if score > 255 {
            return Err(TileSetError::BadScore);
        }
        Ok(TileInfo::new(letter, occurences, score as u8))
    }

    /// Create a tile entry; the tile is a wildcard exactly when its
    /// character is the reserved blank symbol.
    pub fn new(c: char, occurences: u32, score: u8) -> (ti: TileInfo)
        ensures
            ti.tile == (Tile { letter: c, wildcard: c == WILDCARD, points: score }),
            ti.occurences == occurences,
    {
        let wildcard = c == WILDCARD;
        let tile = Tile::new(c, score, wildcard);
        TileInfo { tile, occurences }
    }

    /// Get the letter of this entry's tile.
    pub fn c(&self) -> (c: char)
        ensures
            c == self.tile.letter,
    {
        self.tile.letter()
    }

    /// Get the multiplicity.
    pub fn occurences(&self) -> (n: u32)
        ensures
            n == self.occurences,
    {
        self.occurences
    }

    /// Get the points of the tile.
    pub fn score(&self) -> (p: u8)
        ensures
            p == self.tile.points,
    {
        self.tile.points()
    }

    /// Get a copy of the tile.
    pub fn tile(&self) -> (t: Tile)
        ensures
            t == self.tile,
    {
        self.tile
    }
}

impl TileSet {
    /// Create a tile set from a vector of entries.
    pub fn from_vec(vec: Vec<TileInfo>) -> (ts: TileSet)
        ensures
            ts@ == vec@,
    {
        TileSet { infos: vec }
    }

    /// Create a tile set from the lines of a tile-set source, one entry
    /// per line; the first malformed line aborts with its error.
    pub fn from_lines(lines: &Vec<String>) -> (r: Result<TileSet, TileSetError>)
        ensures
            r is Ok ==> {
                &&& r->Ok_0@.len() == lines@.len()
                &&& forall|j: int|
                    0 <= j < lines@.len() ==> parse_line_spec(
                        (#[trigger] lines@[j])@,
                    ) is Ok && r->Ok_0@[j] == parse_line_spec(lines@[j]@)->Ok_0
            },
            r is Err ==> exists|j: int|
                {
                    &&& 0 <= j < lines@.len()
                    &&& parse_line_spec((#[trigger] lines@[j])@) == Err::<TileInfo, TileSetError>(
                        r->Err_0,
                    )
                    &&& forall|m: int| 0 <= m < j ==> parse_line_spec((#[trigger] lines@[m])@) is Ok
                },
    {
        let n = lines.len();
        let mut infos: Vec<TileInfo> = Vec::new();
        for i in 0..n
            invariant
                n == lines@.len(),
                infos@.len() == i,
                forall|j: int|
                    0 <= j < i ==> parse_line_spec((#[trigger] lines@[j])@) is Ok && infos@[j]
                        == parse_line_spec(lines@[j]@)->Ok_0,
        {
            match TileInfo::from_line(lines[i].as_str()) {
                Ok(ti) => {
                    infos.push(ti);
                },
                Err(e) => {
                    return Err(e);
                },
            }
        }
        Ok(TileSet { infos })
    }

    /// Get the score of a letter: the points of the first entry showing
    /// it, or 0 for a letter the set does not know.
    pub fn get_points(&self, letter: char) -> (p: u8)
        ensures
            p == points_of(self@, letter),
    {
        let n = self.infos.len();
        let mut j: usize = 0;
        proof {
            assert(self@.skip(0) =~= self@);
        }
        while j < n
            invariant
                j <= n,
                n == self@.len(),
                points_of(self@.skip(j as int), letter) == points_of(self@, letter),
            decreases n - j,
        {
            proof {
                assert(self@.skip(j as int)[0] == self@[j as int]);
                assert(self@.skip(j as int).skip(1) =~= self@.skip(j as int + 1));
            }
            if self.infos[j].tile.letter() == letter {
                return self.infos[j].tile.points();
            }
            j = j + 1;
        }
        proof {
            assert(self@.skip(n as int).len() == 0);
        }
        0
    }

    /// Get the entries.
    pub fn infos(&self) -> (r: &Vec<TileInfo>)
        ensures
            r@ == self@,
    {
        &self.infos
    }
}

} // verus!
