//! Patterns of bytes and wildcards, where they match, and the mode in which
//! a pattern is typed.

use vstd::prelude::*;
use crate::byte_range::ByteRange;
use crate::current_buffer::{BuffrCollection, CurrentBuffer};
use crate::keymap::{Chord, Event, KeyCode};
use crate::modes::collapse::Collapse;
use crate::modes::mode::{to_normal, Mode, ModeTransition};
use crate::modes::split::Split;
use crate::operations::{region_range, selected_ranges};
use crate::selection::SelRegion;
use crate::text::{hex_digit, hex_value};

verus! {

/// One place of a pattern.
#[derive(Clone, Copy, Debug, PartialEq, Eq, Structural)]
pub enum PatternPiece {
    /// This byte.
    Literal(u8),
    /// Any byte.
    Wildcard,
}

/// A sequence of bytes and wildcards to look for.
#[derive(Debug)]
pub struct Pattern {
    pub pieces: Vec<PatternPiece>,
}

/// Whether `byte` can stand at the place `piece`.
pub open spec fn piece_matches(piece: PatternPiece, byte: u8) -> bool {
    match piece {
        PatternPiece::Literal(literal) => literal == byte,
        PatternPiece::Wildcard => true,
    }
}

/// Whether the pattern is found at the offset `p` of `data`.
pub open spec fn matches_at(data: Seq<u8>, pieces: Seq<PatternPiece>, p: int) -> bool {
    &&& 0 <= p
    &&& p + pieces.len() <= data.len()
    &&& forall|i: int| 0 <= i < pieces.len() ==> piece_matches(#[trigger] pieces[i], data[p + i])
}

/// The offsets before `upto` at which the pattern is found, in rising order.
pub open spec fn match_positions(data: Seq<u8>, pieces: Seq<PatternPiece>, upto: int) -> Seq<usize>
    decreases upto,
{
    if upto <= 0 {
        Seq::empty()
    } else {
        let before = match_positions(data, pieces, upto - 1);
        if matches_at(data, pieces, upto - 1) {
            before.push((upto - 1) as usize)
        } else {
            before
        }
    }
}

/// All the offsets of `data` at which the pattern is found, in rising order.
/// A pattern without places is found nowhere.
pub open spec fn all_matches(data: Seq<u8>, pieces: Seq<PatternPiece>) -> Seq<usize> {
    if pieces.len() == 0 || pieces.len() > data.len() {
        Seq::empty()
    } else {
        match_positions(data, pieces, data.len() - pieces.len() + 1)
    }
}

/// The ranges in which the pattern is found among the bytes of `region`.
pub open spec fn region_matches(data: Seq<u8>, pieces: Seq<PatternPiece>, region: SelRegion) -> Seq<ByteRange> {
    let range = region_range(region, data.len() as usize);
    let found = all_matches(data.subrange(range.start as int, range.end as int), pieces);
    Seq::new(
        found.len(),
        |i: int|
            ByteRange {
                start: (range.start + found[i]) as usize,
                end: (range.start + found[i] + pieces.len()) as usize,
            },
    )
}

/// A pattern of wildcards is found at every offset that leaves room for it.
pub proof fn lemma_wildcards_match_everywhere(data: Seq<u8>, pieces: Seq<PatternPiece>, upto: int)
    requires
        forall|i: int| 0 <= i < pieces.len() ==> #[trigger] pieces[i] == PatternPiece::Wildcard,
        0 <= upto,
        upto + pieces.len() <= data.len() + 1,
    ensures
        match_positions(data, pieces, upto) == Seq::new(upto as nat, |p: int| p as usize),
    decreases upto,
{
    if upto > 0 {
        lemma_wildcards_match_everywhere(data, pieces, upto - 1);
        assert(matches_at(data, pieces, upto - 1));
        assert(match_positions(data, pieces, upto) =~= Seq::new(upto as nat, |p: int| p as usize));
    } else {
        assert(match_positions(data, pieces, upto) =~= Seq::new(upto as nat, |p: int| p as usize));
    }
}

/// No more offsets match than there are.
pub proof fn lemma_match_positions_bound(data: Seq<u8>, pieces: Seq<PatternPiece>, upto: int)
    requires
        upto <= usize::MAX,
    ensures
        match_positions(data, pieces, upto).len() <= if upto <= 0 { 0 } else { upto },
        forall|i: int|
            0 <= i < match_positions(data, pieces, upto).len() ==> (#[trigger] match_positions(
                data,
                pieces,
                upto,
            )[i]) < upto && matches_at(data, pieces, match_positions(data, pieces, upto)[i] as int),
    decreases upto,
{
    if upto > 0 {
        lemma_match_positions_bound(data, pieces, upto - 1);
        let before = match_positions(data, pieces, upto - 1);
        let all = match_positions(data, pieces, upto);
        assert forall|i: int| 0 <= i < all.len() implies (#[trigger] all[i]) < upto && matches_at(
            data,
            pieces,
            all[i] as int,
        ) by {
            if i < before.len() {
                assert(all[i] == before[i]);
            }
        }
    }
}

impl Pattern {
    /// Whether the pattern is found at the offset `p` of `data`.
    pub fn matches_here(&self, data: &Vec<u8>, p: usize) -> (found: bool)
        requires
            p + self.pieces@.len() <= data@.len(),
        ensures
            found == matches_at(data@, self.pieces@, p as int),
    {
        let size = data.len();
        let mut i: usize = 0;
        while i < self.pieces.len()
            invariant
                i <= self.pieces@.len(),
                size == data@.len(),
                p + self.pieces@.len() <= data@.len(),
                forall|k: int|
                    0 <= k < i ==> piece_matches(#[trigger] self.pieces@[k], data@[p + k]),
            decreases self.pieces@.len() - i,
        {
            match self.pieces[i] {
                PatternPiece::Literal(literal) => {
                    if data[p + i] != literal {
                        assert(!piece_matches(self.pieces@[i as int], data@[p + i]));
                        return false;
                    }
                },
                PatternPiece::Wildcard => {},
            }
            i += 1;
        }
        true
    }

    /// All the offsets of `data` at which the pattern is found.
    pub fn find_all(&self, data: &Vec<u8>) -> (found: Vec<usize>)
        ensures
            found@ == all_matches(data@, self.pieces@),
    {
        let mut found: Vec<usize> = Vec::new();
        let k = self.pieces.len();
        if k == 0 || k > data.len() {
            return found;
        }
        let stop = data.len() - k + 1;
        let mut p: usize = 0;
        while p < stop
            invariant
                p <= stop,
                stop == data@.len() - k + 1,
                k == self.pieces@.len(),
                found@ == match_positions(data@, self.pieces@, p as int),
            decreases stop - p,
        {
            if self.matches_here(data, p) {
                found.push(p);
            }
            p += 1;
        }
        found
    }

    /// For each region of the selection of `buffer`, the ranges in which the
    /// pattern is found among its bytes.
    pub fn map_selections_to_matches(&self, buffer: &CurrentBuffer) -> (matched: Vec<Vec<ByteRange>>)
        ensures
            matched@.len() == buffer@.selection.regions.len(),
            forall|i: int|
                0 <= i < matched@.len() ==> (#[trigger] matched@[i])@ == region_matches(
                    buffer@.data,
                    self.pieces@,
                    buffer@.selection.regions[i],
                ),
    {
        let len = buffer.data.len();
        let ranges = selected_ranges(&buffer.selection, len);
        let k = self.pieces.len();
        let mut matched: Vec<Vec<ByteRange>> = Vec::new();
        let mut i: usize = 0;
        while i < ranges.len()
            invariant
                i <= ranges@.len(),
                len == buffer@.data.len(),
                k == self.pieces@.len(),
                ranges@.len() == buffer@.selection.regions.len(),
                forall|j: int| 0 <= j < ranges@.len() ==> #[trigger] ranges@[j] == region_range(
                    buffer@.selection.regions[j],
                    len,
                ),
                matched@.len() == i,
                forall|j: int|
                    0 <= j < i ==> (#[trigger] matched@[j])@ == region_matches(
                        buffer@.data,
                        self.pieces@,
                        buffer@.selection.regions[j],
                    ),
            decreases ranges@.len() - i,
        {
            let range = ranges[i];
            let window = match buffer.data.slice(range.start, range.end) {
                Ok(bytes) => bytes,
                Err(_) => Vec::new(),
            };
            let found = self.find_all(&window);
            let size = window.len();
            proof {
                if 0 < k <= size {
                    lemma_match_positions_bound(window@, self.pieces@, size - k + 1);
                }
            }
            let mut list: Vec<ByteRange> = Vec::new();
            let mut j: usize = 0;
            while j < found.len()
                invariant
                    j <= found@.len(),
                    k == self.pieces@.len(),
                    range.start + window@.len() <= usize::MAX,
                    forall|m: int| 0 <= m < found@.len() ==> (#[trigger] found@[m]) + k <= window@.len(),
                    list@.len() == j,
                    forall|m: int|
                        0 <= m < j ==> #[trigger] list@[m] == (ByteRange {
                            start: (range.start + found@[m]) as usize,
                            end: (range.start + found@[m] + k) as usize,
                        }),
                decreases found@.len() - j,
            {
                let at = found[j];
                assert(found@[j as int] + k <= window@.len());
                list.push(ByteRange { start: range.start + at, end: range.start + at + k });
                j += 1;
            }
            proof {
                assert(list@ =~= region_matches(
                    buffer@.data,
                    self.pieces@,
                    buffer@.selection.regions[i as int],
                ));
            }
            matched.push(list);
            i += 1;
        }
        matched
    }

    /// A copy of the pattern.
    pub fn duplicate(&self) -> (copy: Pattern)
        ensures
            copy.pieces@ == self.pieces@,
    {
        let pieces = self.pieces.clone();
        assert(pieces@ =~= self.pieces@);
        Pattern { pieces }
    }
}

/// What is done with the matches of a pattern.
#[derive(Clone, Copy, Debug, PartialEq, Eq, Structural)]
pub enum Acceptor {
    /// Each region becomes the matches in it.
    Collapse,
    /// Each region becomes what lies between the matches in it.
    Split,
}

/// The mode in which a pattern is typed, as specifications see it.
pub struct SearchView {
    pub acceptor: Acceptor,
    pub hex: bool,
    pub pieces: Seq<PatternPiece>,
    pub cursor: int,
    pub hex_half: Option<u8>,
}

/// The mode in which a pattern is typed: in text, one character for each
/// place and `*` for a wildcard; in hex, two digits for each place and `*`
/// for a wildcard.
#[derive(Debug)]
pub struct Search {
    pub acceptor: Acceptor,
    pub hex: bool,
    pub pattern: Pattern,
    /// The place before which is typed.
    pub cursor: usize,
    /// The first digit of the place at the cursor, while the second is
    /// still to come.
    pub hex_half: Option<u8>,
}

impl View for Search {
    type V = SearchView;

    open spec fn view(&self) -> SearchView {
        SearchView {
            acceptor: self.acceptor,
            hex: self.hex,
            pieces: self.pattern.pieces@,
            cursor: self.cursor as int,
            hex_half: self.hex_half,
        }
    }
}

/// The byte of a character that is typed as text, if it is one.
pub open spec fn typed_byte(c: char) -> Option<u8> {
    if (c as u32) < 256 {
        Some((c as u32) as u8)
    } else {
        None
    }
}

/// The byte of a character that is typed as text, if it is one.
pub fn byte_of(c: char) -> (byte: Option<u8>)
    ensures
        byte == typed_byte(c),
{
    let code = c as u32;
    if code < 256 {
        Some(code as u8)
    } else {
        None
    }
}

impl SearchView {
    /// The cursor, kept among the places.
    pub open spec fn place(self) -> int {
        if self.cursor > self.pieces.len() {
            self.pieces.len() as int
        } else {
            self.cursor
        }
    }

    /// With `piece` put in before the cursor, and the cursor behind it.
    pub open spec fn with_piece(self, piece: PatternPiece) -> SearchView {
        SearchView {
            pieces: self.pieces.insert(self.place(), piece),
            cursor: self.place() + 1,
            hex_half: None,
            ..self
        }
    }

    /// What typing and the keys that move and remove make of what was typed.
    /// `None` where they change nothing.
    pub open spec fn edited(self, event: Event) -> Option<SearchView> {
        let at = self.place();
        match event {
            Event::Key(key) => match key.chord() {
                Chord::Plain(KeyCode::Backspace) => if self.hex_half is Some && at
                    < self.pieces.len() {
                    Some(SearchView { pieces: self.pieces.remove(at), cursor: at, hex_half: None, ..self })
                } else if at > 0 {
                    Some(
                        SearchView {
                            pieces: self.pieces.remove(at - 1),
                            cursor: at - 1,
                            hex_half: None,
                            ..self
                        },
                    )
                } else {
                    None
                },
                Chord::Plain(KeyCode::Delete) => if self.hex_half is None && at
                    < self.pieces.len() {
                    Some(SearchView { pieces: self.pieces.remove(at), cursor: at, ..self })
                } else {
                    None
                },
                Chord::Plain(KeyCode::Left) => if self.hex_half is None && at > 0 {
                    Some(SearchView { cursor: at - 1, ..self })
                } else {
                    None
                },
                Chord::Plain(KeyCode::Right) => if self.hex_half is None && at
                    < self.pieces.len() {
                    Some(SearchView { cursor: at + 1, ..self })
                } else {
                    None
                },
                Chord::Plain(KeyCode::Char(c)) => if !self.hex {
                    if c == '*' {
                        Some(self.with_piece(PatternPiece::Wildcard))
                    } else {
                        match typed_byte(c) {
                            Some(byte) => Some(self.with_piece(PatternPiece::Literal(byte))),
                            None => None,
                        }
                    }
                } else {
                    match self.hex_half {
                        Some(half) => match hex_value(c) {
                            Some(digit) => if at < self.pieces.len() {
                                Some(
                                    SearchView {
                                        pieces: self.pieces.update(
                                            at,
                                            PatternPiece::Literal((half % 16 * 16 + digit) as u8),
                                        ),
                                        cursor: at + 1,
                                        hex_half: None,
                                        ..self
                                    },
                                )
                            } else {
                                None
                            },
                            None => None,
                        },
                        None => if c == '*' {
                            Some(self.with_piece(PatternPiece::Wildcard))
                        } else {
                            match hex_value(c) {
                                Some(digit) => Some(
                                    SearchView {
                                        pieces: self.pieces.insert(
                                            at,
                                            PatternPiece::Literal((digit * 16) as u8),
                                        ),
                                        cursor: at,
                                        hex_half: Some(digit),
                                        ..self
                                    },
                                ),
                                None => None,
                            }
                        },
                    }
                },
                _ => None,
            },
            _ => None,
        }
    }
}

impl Search {
    pub open spec fn spec_name(self) -> Seq<char> {
        if self.hex {
            "SEARCH (hex)"@
        } else {
            "SEARCH"@
        }
    }

    /// Escape lets normal mode take over. Enter hands the pattern to the
    /// acceptor. The other keys change what was typed; a key that changes
    /// nothing does nothing, and what is no key is left to the view.
    pub open spec fn transitioned(self, event: Event, before: BuffrCollection, after: BuffrCollection, result: Option<ModeTransition>) -> bool {
        match event {
            Event::Key(key) => match key.chord() {
                Chord::Plain(KeyCode::Esc) => after == before && (result matches Some(t)
                    && to_normal(t)),
                Chord::Plain(KeyCode::Enter) => (result matches Some(t) && match self.acceptor {
                    Acceptor::Collapse => Collapse::searched(self.pattern.pieces@, before, after, t),
                    Acceptor::Split => Split::searched(self.pattern.pieces@, before, after, t),
                }),
                _ => after == before && match self@.edited(event) {
                    Some(next) => (result matches Some(
                        ModeTransition::NewMode(Mode::Search(search)),
                    ) && search@ == next),
                    None => (result matches Some(ModeTransition::Unchanged)),
                },
            },
            _ => after == before && result is None,
        }
    }

    /// The mode with nothing typed yet.
    pub fn new(acceptor: Acceptor, hex: bool) -> (search: Search)
        ensures
            search@ == (SearchView {
                acceptor,
                hex,
                pieces: Seq::empty(),
                cursor: 0,
                hex_half: None,
            }),
    {
        Search {
            acceptor,
            hex,
            pattern: Pattern { pieces: Vec::new() },
            cursor: 0,
            hex_half: None,
        }
    }

    pub fn name(&self) -> (name: String)
        ensures
            name@ == self.spec_name(),
    {
        if self.hex {
            "SEARCH (hex)".to_owned()
        } else {
            "SEARCH".to_owned()
        }
    }

    /// The mode with `piece` put in before the cursor.
    fn with_piece(&self, piece: PatternPiece) -> (next: Search)
        ensures
            next@ == self@.with_piece(piece),
    {
        let at = if self.cursor > self.pattern.pieces.len() {
            self.pattern.pieces.len()
        } else {
            self.cursor
        };
        let mut pattern = self.pattern.duplicate();
        pattern.pieces.insert(at, piece);
        let size = pattern.pieces.len();
        assert(at < size);
        Search { acceptor: self.acceptor, hex: self.hex, pattern, cursor: at + 1, hex_half: None }
    }

    /// What typing and the keys that move and remove make of what was typed.
    pub fn edit(&self, event: &Event) -> (next: Option<Search>)
        ensures
            match self@.edited(*event) {
                Some(view) => next matches Some(search) && search@ == view,
                None => next is None,
            },
    {
        let len = self.pattern.pieces.len();
        let at = if self.cursor > len { len } else { self.cursor };
        let key = match event {
            Event::Key(key) => key,
            _ => {
                return None;
            },
        };
        match key.chord() {
            Chord::Plain(KeyCode::Backspace) => {
                if self.hex_half.is_some() && at < len {
                    let mut pattern = self.pattern.duplicate();
                    pattern.pieces.remove(at);
                    Some(
                        Search {
                            acceptor: self.acceptor,
                            hex: self.hex,
                            pattern,
                            cursor: at,
                            hex_half: None,
                        },
                    )
                } else if at > 0 {
                    let mut pattern = self.pattern.duplicate();
                    pattern.pieces.remove(at - 1);
                    Some(
                        Search {
                            acceptor: self.acceptor,
                            hex: self.hex,
                            pattern,
                            cursor: at - 1,
                            hex_half: None,
                        },
                    )
                } else {
                    None
                }
            },
            Chord::Plain(KeyCode::Delete) => {
                if self.hex_half.is_none() && at < len {
                    let mut pattern = self.pattern.duplicate();
                    pattern.pieces.remove(at);
                    Some(
                        Search {
                            acceptor: self.acceptor,
                            hex: self.hex,
                            pattern,
                            cursor: at,
                            hex_half: self.hex_half,
                        },
                    )
                } else {
                    None
                }
            },
            Chord::Plain(KeyCode::Left) => {
                if self.hex_half.is_none() && at > 0 {
                    Some(
                        Search {
                            acceptor: self.acceptor,
                            hex: self.hex,
                            pattern: self.pattern.duplicate(),
                            cursor: at - 1,
                            hex_half: self.hex_half,
                        },
                    )
                } else {
                    None
                }
            },
            Chord::Plain(KeyCode::Right) => {
                if self.hex_half.is_none() && at < len {
                    Some(
                        Search {
                            acceptor: self.acceptor,
                            hex: self.hex,
                            pattern: self.pattern.duplicate(),
                            cursor: at + 1,
                            hex_half: self.hex_half,
                        },
                    )
                } else {
                    None
                }
            },
            Chord::Plain(KeyCode::Char(c)) => {
                if !self.hex {
                    if c == '*' {
                        Some(self.with_piece(PatternPiece::Wildcard))
                    } else {
                        match byte_of(c) {
                            Some(byte) => Some(self.with_piece(PatternPiece::Literal(byte))),
                            None => None,
                        }
                    }
                } else {
                    match self.hex_half {
                        Some(half) => match hex_digit(c) {
                            Some(digit) => {
                                if at < len {
                                    let mut pattern = self.pattern.duplicate();
                                    pattern.pieces.set(
                                        at,
                                        PatternPiece::Literal(half % 16 * 16 + digit),
                                    );
                                    Some(
                                        Search {
                                            acceptor: self.acceptor,
                                            hex: self.hex,
                                            pattern,
                                            cursor: at + 1,
                                            hex_half: None,
                                        },
                                    )
                                } else {
                                    None
                                }
                            },
                            None => None,
                        },
                        None => {
                            if c == '*' {
                                Some(self.with_piece(PatternPiece::Wildcard))
                            } else {
                                match hex_digit(c) {
                                    Some(digit) => {
                                        let mut pattern = self.pattern.duplicate();
                                        pattern.pieces.insert(
                                            at,
                                            PatternPiece::Literal(digit * 16),
                                        );
                                        Some(
                                            Search {
                                                acceptor: self.acceptor,
                                                hex: self.hex,
                                                pattern,
                                                cursor: at,
                                                hex_half: Some(digit),
                                            },
                                        )
                                    },
                                    None => None,
                                }
                            }
                        },
                    }
                }
            },
            _ => None,
        }
    }

    /// What the mode makes of an event.
    pub fn transition(&self, event: &Event, buffr_collection: &mut BuffrCollection, bytes_per_line: usize) -> (result: Option<ModeTransition>)
        requires
            old(buffr_collection).wf(),
        ensures
            final(buffr_collection).wf(),
            self.transitioned(*event, *old(buffr_collection), *final(buffr_collection), result),
    {
        match event {
            Event::Key(key) => match key.chord() {
                Chord::Plain(KeyCode::Esc) => Some(ModeTransition::normal()),
                Chord::Plain(KeyCode::Enter) => match self.acceptor {
                    Acceptor::Collapse => Some(
                        Collapse {  }.apply_search(&self.pattern, buffr_collection, bytes_per_line),
                    ),
                    Acceptor::Split => Some(
                        Split {  }.apply_search(&self.pattern, buffr_collection, bytes_per_line),
                    ),
                },
                _ => match self.edit(event) {
                    Some(next) => Some(ModeTransition::NewMode(Mode::Search(next))),
                    None => Some(ModeTransition::Unchanged),
                },
            },
            _ => None,
        }
    }
}

} // verus!
