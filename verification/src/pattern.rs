use vstd::prelude::*;
use crate::error::TurmiteError;
use crate::marker::Marker;
use crate::marker::fresh_marker;
use crate::marker::fresh_rng;
use vstd::string::StrSliceExecFns;

verus! {

/// A turn instruction, keyed by the marker found on a cell. The alphabet is
/// the closed set below; each command is a pure transform on a heading.
#[derive(Clone, Copy, Debug, PartialEq, Eq, Structural)]
pub enum TurnCommand {
    TurnLeft,
    TurnRight,
    UTurn,
    NoTurn,
}

/// Whether a pattern character names a turn command. Recognition is
/// case-insensitive; every other character is skipped.
pub open spec fn is_turn_char(c: char) -> bool {
    c == 'r' || c == 'R' || c == 'l' || c == 'L' || c == 'u' || c == 'U' || c == 'n' || c == 'N'
}

/// The turn command a recognized pattern character names.
pub open spec fn turn_of_char(c: char) -> TurnCommand {
    if c == 'r' || c == 'R' {
        TurnCommand::TurnRight
    } else if c == 'l' || c == 'L' {
        TurnCommand::TurnLeft
    } else if c == 'u' || c == 'U' {
        TurnCommand::UTurn
    } else {
        TurnCommand::NoTurn
    }
}

/// The turn commands named by the recognized characters of a pattern, in
/// order; unrecognized characters contribute nothing.
pub open spec fn turns_of(s: Seq<char>) -> Seq<TurnCommand>
    decreases s.len(),
{
    if s.len() == 0 {
        Seq::empty()
    } else if is_turn_char(s.last()) {
        turns_of(s.drop_last()).push(turn_of_char(s.last()))
    } else {
        turns_of(s.drop_last())
    }
}

/// True iff some entry of `markers` holds `m`.
pub open spec fn has_marker(markers: Seq<Marker>, m: Marker) -> bool {
    exists|i: int| 0 <= i < markers.len() && markers[i] == m
}

/// The index of the first entry holding `m`; the length when none does.
pub open spec fn first_index(markers: Seq<Marker>, m: Marker) -> int
    decreases markers.len(),
{
    if markers.len() == 0 {
        0
    } else if markers[0] == m {
        0
    } else {
        1 + first_index(markers.drop_first(), m)
    }
}

/// A forward scan that saw no match up to `i` pins `first_index` down: it is
/// `i` when `i` holds a match, and the length when the whole table was seen.
proof fn lemma_first_index_agrees(markers: Seq<Marker>, m: Marker, i: int)
    requires
        0 <= i <= markers.len(),
        forall|j: int| 0 <= j < i ==> markers[j] != m,
        i < markers.len() ==> markers[i] == m,
    ensures
        i < markers.len() ==> first_index(markers, m) == i,
        i == markers.len() ==> first_index(markers, m) == markers.len(),
    decreases markers.len(),
{
    if markers.len() == 0 {
    } else if markers[0] == m {
        assert(i == 0);
    } else {
        let rest = markers.drop_first();
        assert(forall|j: int| 0 <= j < i - 1 ==> rest[j] != m);
        lemma_first_index_agrees(rest, m, i - 1);
    }
}

/// The table the turmite follows: entry i pairs the marker `colors[i]` with
/// the command `turns[i]`, read as a cyclic sequence. Immutable after
/// construction.
#[derive(Clone, Debug)]
pub struct AntPattern {
    colors: Vec<Marker>,
    turns: Vec<TurnCommand>,
}

impl AntPattern {
    /// Well-formed: as many markers as turns, and at least two entries.
    pub open spec fn wf(&self) -> bool {
        self.marker_seq().len() == self.turn_seq().len() && self.marker_seq().len() >= 2
    }

    /// The markers of the table, in entry order.
    pub closed spec fn marker_seq(&self) -> Seq<Marker> {
        self.colors@
    }

    /// The turn commands of the table, in entry order.
    pub closed spec fn turn_seq(&self) -> Seq<TurnCommand> {
        self.turns@
    }

    /// The number of entries.
    pub open spec fn num_entries(&self) -> nat {
        self.marker_seq().len()
    }

    /// The rule applied on a first-visited (blank) cell: the marker at index
    /// 1 paired with the turn at index 0. The index asymmetry is deliberate:
    /// the marker painted on the very first visited cell is the table's
    /// second configured marker, not its first.
    pub open spec fn first_spec(&self) -> (Marker, TurnCommand) {
        (self.marker_seq()[1], self.turn_seq()[0])
    }

    /// The cyclic lookup: the first entry whose marker equals `m` yields the
    /// cyclically following entry's marker together with its own turn
    /// command; `None` when no entry holds `m`.
    pub open spec fn next_spec(&self, m: Marker) -> Option<(Marker, TurnCommand)> {
        if has_marker(self.marker_seq(), m) {
            let i = first_index(self.marker_seq(), m);
            Some(
                (
                    self.marker_seq()[(i + 1) % (self.marker_seq().len() as int)],
                    self.turn_seq()[i],
                ),
            )
        } else {
            None
        }
    }

    /// Parses a turn-alphabet string. Each recognized character (`r`, `l`,
    /// `u`, `n`, either case) appends one entry pairing a fresh pseudo-random
    /// marker with the named command; unrecognized characters are silently
    /// skipped. Fails iff fewer than two entries were produced. Markers are
    /// drawn independently and are not guaranteed distinct; two entries can
    /// collide, a known risk of the construction, and the cyclic lookup then
    /// matches the earlier of the colliding entries.
    pub fn parse(pattern: String) -> (r: Result<AntPattern, TurmiteError>)
        ensures
            r is Ok <==> turns_of(pattern@).len() >= 2,
            r matches Ok(t) ==> t.wf() && t.turn_seq() == turns_of(pattern@)
                && t.num_entries() == turns_of(pattern@).len()
                && forall|i: int| 0 <= i < t.num_entries() ==> t.marker_seq()[i].in_channel_range(),
            r matches Err(e) ==> e == TurmiteError::InvalidPattern,
    {
        let mut rng = fresh_rng();
        let mut colors: Vec<Marker> = Vec::new();
        let mut turns: Vec<TurnCommand> = Vec::new();
        let n = pattern.as_str().unicode_len();
        for i in 0..n
            invariant
                n == pattern@.len(),
                turns@ == turns_of(pattern@.take(i as int)),
                colors@.len() == turns@.len(),
                forall|j: int| 0 <= j < colors@.len() ==> colors@[j].in_channel_range(),
        {
            let c = pattern.as_str().get_char(i);
            match recognize(c) {
                Some(t) => {
                    let m = fresh_marker(&mut rng);
                    colors.push(m);
                    turns.push(t);
                },
                None => (),
            }
            proof {
                let taken = pattern@.take(i as int + 1);
                assert(taken.drop_last() =~= pattern@.take(i as int));
                assert(taken.last() == pattern@[i as int]);
            }
        }
        proof {
            assert(pattern@.take(n as int) =~= pattern@);
        }
        if colors.len() < 2 {
            return Err(TurmiteError::InvalidPattern);
        }
        Ok(AntPattern { colors, turns })
    }

    /// The number of entries of the table.
    pub fn len(&self) -> (n: usize)
        ensures
            n == self.num_entries(),
    {
        self.colors.len()
    }

    /// The marker of entry `i`.
    pub fn marker_at(&self, i: usize) -> (m: Marker)
        requires
            i < self.num_entries(),
        ensures
            m == self.marker_seq()[i as int],
    {
        self.colors[i]
    }

    /// The turn command of entry `i`.
    pub fn turn_at(&self, i: usize) -> (t: TurnCommand)
        requires
            self.wf(),
            i < self.num_entries(),
        ensures
            t == self.turn_seq()[i as int],
    {
        self.turns[i]
    }

    /// The rule for a first-visited cell: the marker at index 1 paired with
    /// the turn at index 0 (the deliberate index asymmetry above).
    pub fn first(&self) -> (r: (Marker, TurnCommand))
        requires
            self.wf(),
        ensures
            r == self.first_spec(),
            r.0 == self.marker_seq()[1],
            r.1 == self.turn_seq()[0],
    {
        (self.colors[1], self.turns[0])
    }

    /// The cyclic lookup on a revisited cell: scans the entries in order and,
    /// at the first whose marker equals `current`, returns the cyclically
    /// following entry's marker and the matching entry's turn command. A
    /// marker that does not occur in the table is an internal-consistency
    /// failure, returned as `UnknownMarker`.
    pub fn next(&self, current: Marker) -> (r: Result<(Marker, TurnCommand), TurmiteError>)
        requires
            self.wf(),
        ensures
            r is Ok <==> has_marker(self.marker_seq(), current),
            r matches Ok(p) ==> self.next_spec(current) == Some(p),
            r matches Err(e) ==> e == TurmiteError::UnknownMarker && self.next_spec(current) is None,
    {
        let n = self.colors.len();
        for i in 0..n
            invariant
                self.wf(),
                n == self.colors@.len(),
                forall|j: int| 0 <= j < i ==> self.colors@[j] != current,
        {
            if self.colors[i] == current {
                proof {
                    lemma_first_index_agrees(self.colors@, current, i as int);
                    let len = self.colors@.len() as int;
                    if i as int + 1 == len {
                        assert(len % len == 0) by (nonlinear_arith)
                            requires len > 0;
                    } else {
                        assert((i as int + 1) % len == i as int + 1) by (nonlinear_arith)
                            requires 0 <= i as int + 1 < len;
                    }
                }
                let next_i = if i + 1 == n { 0 } else { i + 1 };
                return Ok((self.colors[next_i], self.turns[i]));
            }
        }
        proof {
            lemma_first_index_agrees(self.colors@, current, n as int);
        }
        Err(TurmiteError::UnknownMarker)
    }
}

/// The command a character names, or `None` where the character is skipped.
fn recognize(c: char) -> (r: Option<TurnCommand>)
    ensures
        r == if is_turn_char(c) { Some(turn_of_char(c)) } else { None::<TurnCommand> },
{
    if c == 'r' || c == 'R' {
        Some(TurnCommand::TurnRight)
    } else if c == 'l' || c == 'L' {
        Some(TurnCommand::TurnLeft)
    } else if c == 'u' || c == 'U' {
        Some(TurnCommand::UTurn)
    } else if c == 'n' || c == 'N' {
        Some(TurnCommand::NoTurn)
    } else {
        None
    }
}

/// A marker that occurs at all occurs at `first_index`, which is in range.
proof fn lemma_first_index_in_range(markers: Seq<Marker>, m: Marker)
    requires
        has_marker(markers, m),
    ensures
        0 <= first_index(markers, m) < markers.len(),
        markers[first_index(markers, m)] == m,
    decreases markers.len(),
{
    if markers[0] != m {
        let rest = markers.drop_first();
        let j = choose|j: int| 0 <= j < markers.len() && markers[j] == m;
        assert(rest[j - 1] == m);
        lemma_first_index_in_range(rest, m);
    }
}

/// The cyclic lookup succeeds exactly on the markers of the table, and the
/// marker it yields is again one of the table's markers.
pub proof fn lemma_next_spec_total(t: &AntPattern, m: Marker)
    requires
        t.wf(),
    ensures
        t.next_spec(m) is Some <==> has_marker(t.marker_seq(), m),
        t.next_spec(m) matches Some(pair) ==> has_marker(t.marker_seq(), pair.0),
{
    if has_marker(t.marker_seq(), m) {
        lemma_first_index_in_range(t.marker_seq(), m);
        let i = first_index(t.marker_seq(), m);
        let n = t.marker_seq().len() as int;
        assert(0 <= (i + 1) % n < n) by (nonlinear_arith)
            requires 0 <= i + 1 && n > 0;
        let w = t.marker_seq()[(i + 1) % n];
        assert(has_marker(t.marker_seq(), w));
    }
}

/// Law: for every well-formed table and every marker taken at its first
/// occurrence index `i`, the cyclic lookup yields entry `(i + 1) mod N`'s
/// marker paired with entry `i`'s turn command.
pub proof fn lemma_next_entry(t: &AntPattern, i: int)
    requires
        t.wf(),
        0 <= i < t.marker_seq().len(),
        forall|j: int| 0 <= j < i ==> t.marker_seq()[j] != t.marker_seq()[i],
    ensures
        t.next_spec(t.marker_seq()[i]) == Some(
            (t.marker_seq()[(i + 1) % (t.marker_seq().len() as int)], t.turn_seq()[i]),
        ),
{
    let m = t.marker_seq()[i];
    assert(has_marker(t.marker_seq(), m));
    lemma_first_index_agrees(t.marker_seq(), m, i);
}

} // verus!
