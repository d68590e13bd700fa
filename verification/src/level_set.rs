//! An ordered set of levels read from one stream of bytes, and the level
//! that is being played.

use vstd::prelude::*;
use crate::codec::{blank, is_blank, read_record, take_glyphs};
use crate::level::Level;
use crate::play::{LevelView, Round};
use crate::stream::ByteStream;

verus! {

/// Why a set of levels could not be read.
#[derive(Clone, Copy, Debug, PartialEq, Eq, Structural)]
pub enum LoadError {
    /// A record began and the data ended before its 64th glyph.
    NotEnoughData,
}

impl LoadError {
    /// What went wrong, in words.
    pub fn message(&self) -> (s: &'static str)
        ensures
            s@ == "Not enough level data"@,
    {
        "Not enough level data"
    }
}

/// What follows the first line feed of `s`; nothing where there is none.
pub open spec fn after_line(s: Seq<u8>) -> Seq<u8>
    decreases s.len(),
{
    if s.len() == 0 {
        s
    } else if s[0] == 10 {
        s.skip(1)
    } else {
        after_line(s.skip(1))
    }
}

/// `s` without the blanks it begins with.
pub open spec fn trimmed(s: Seq<u8>) -> Seq<u8>
    decreases s.len(),
{
    if s.len() > 0 && is_blank(s[0]) {
        trimmed(s.skip(1))
    } else {
        s
    }
}

/// Records read so far, followed by those that `more` holds.
pub open spec fn extended(read: Seq<Seq<u8>>, more: Option<Seq<Seq<u8>>>) -> Option<
    Seq<Seq<u8>>,
> {
    match more {
        Some(records) => Some(read + records),
        None => None,
    }
}

/// The records of a stream of bytes.
///
/// A `#` where a record could begin opens a comment that runs to the end of
/// the line. Blanks between records are passed over. Any other byte begins a
/// record, which takes the next 64 bytes that are not blank. Fewer than 64
/// bytes left where a record would begin end the stream quietly. A record
/// that has begun and cannot be completed makes the whole stream unreadable:
/// the result is `None`.
pub open spec fn scan(s: Seq<u8>) -> Option<Seq<Seq<u8>>>
    decreases s.len(),
    via scan_decreases
{
    if s.len() == 0 {
        Some(Seq::empty())
    } else if s[0] == 35 {
        scan(after_line(s))
    } else if is_blank(s[0]) {
        scan(s.skip(1))
    } else if s.len() < 64 {
        Some(Seq::empty())
    } else {
        match take_glyphs(s, 64) {
            Some((glyphs, rest)) => extended(seq![glyphs], scan(rest)),
            None => None,
        }
    }
}

#[via_fn]
proof fn scan_decreases(s: Seq<u8>) {
    if s.len() > 0 {
        lemma_after_line(s);
        lemma_take_glyphs(s, 64);
    }
}

/// A comment takes at least one byte.
pub proof fn lemma_after_line(s: Seq<u8>)
    requires
        s.len() > 0,
    ensures
        after_line(s).len() < s.len(),
    decreases s.len(),
{
    if s[0] != 10 {
        if s.len() > 1 {
            lemma_after_line(s.skip(1));
        } else {
            assert(after_line(s.skip(1)) == s.skip(1));
        }
    }
}

/// Glyphs are taken from the front: what is left is shorter by at least as
/// many bytes as glyphs were taken, and there are as many glyphs as asked
/// for.
pub proof fn lemma_take_glyphs(s: Seq<u8>, n: nat)
    ensures
        take_glyphs(s, n) matches Some((glyphs, rest)) ==> glyphs.len() == n && rest.len() + n
            <= s.len(),
    decreases s.len(),
{
    if n > 0 && s.len() > 0 {
        if is_blank(s[0]) {
            lemma_take_glyphs(s.skip(1), n);
        } else {
            lemma_take_glyphs(s.skip(1), (n - 1) as nat);
        }
    }
}

/// Blanks before a record do not change what is read.
pub proof fn lemma_scan_trimmed(s: Seq<u8>)
    ensures
        scan(trimmed(s)) == scan(s),
        trimmed(s).len() <= s.len(),
    decreases s.len(),
{
    if s.len() > 0 && is_blank(s[0]) {
        lemma_scan_trimmed(s.skip(1));
    }
}

/// The new levels of the given records, in order.
pub open spec fn fresh_levels(records: Seq<Seq<u8>>) -> Seq<LevelView> {
    Seq::new(records.len(), |i: int| LevelView::fresh(records[i]))
}

/// A set of levels seen as a value.
#[verifier::ext_equal]
pub struct LevelSetView {
    /// The levels, in the order of the stream.
    pub levels: Seq<LevelView>,
    /// Index of the level that is being played.
    pub current: usize,
}

impl LevelSetView {
    /// What always holds of a set: every level is well formed, and the
    /// current index names a level unless there is none.
    pub open spec fn wf(self) -> bool {
        &&& forall|i: int| 0 <= i < self.levels.len() ==> (#[trigger] self.levels[i]).wf()
        &&& self.current < self.levels.len() || (self.levels.len() == 0 && self.current == 0)
    }

    /// The set with the next level current; at the last level, the set itself.
    pub open spec fn advanced(self) -> LevelSetView {
        if self.current + 1 < self.levels.len() {
            LevelSetView { current: (self.current + 1) as usize, ..self }
        } else {
            self
        }
    }

    /// The set with the level before current; at the first level, the set
    /// itself.
    pub open spec fn retreated(self) -> LevelSetView {
        if self.current > 0 {
            LevelSetView { current: (self.current - 1) as usize, ..self }
        } else {
            self
        }
    }

    /// The set with `level` in place of the current level.
    pub open spec fn with_current(self, level: LevelView) -> LevelSetView {
        LevelSetView { levels: self.levels.update(self.current as int, level), ..self }
    }

    /// The level that is being played.
    pub open spec fn level(self) -> LevelView {
        self.levels[self.current as int]
    }

    /// The set after a tick in a window of `width` by `height` pixels: the
    /// current level takes the tick; once it is solved it starts over and
    /// the next level becomes current.
    pub open spec fn updated(self, width: usize, height: usize) -> LevelSetView {
        let level = self.level().updated(width, height);
        if level.solved {
            self.with_current(level.restarted()).advanced()
        } else {
            self.with_current(level)
        }
    }

    /// The set after the keys of one round: first those that choose the next
    /// or the previous level, then the one that starts the current level
    /// over.
    pub open spec fn keyed(self, next: bool, previous: bool, reset: bool) -> LevelSetView {
        let a = if next {
            self.advanced()
        } else {
            self
        };
        let b = if previous {
            a.retreated()
        } else {
            a
        };
        if reset {
            b.with_current(b.level().restarted())
        } else {
            b
        }
    }

    /// The set after one round of input: first the keys, then the round of
    /// input on the current level.
    pub open spec fn interacted(
        self,
        next: bool,
        previous: bool,
        reset: bool,
        pressed: bool,
        cursor: Option<(usize, usize)>,
        undo: bool,
    ) -> LevelSetView {
        let c = self.keyed(next, previous, reset);
        c.with_current(c.level().interacted(pressed, cursor, undo))
    }
}

/// An ordered set of levels and the one that is being played.
#[derive(Debug)]
pub struct LevelSet {
    levels: Vec<Level>,
    current: usize,
}

impl View for LevelSet {
    type V = LevelSetView;

    closed spec fn view(&self) -> LevelSetView {
        LevelSetView {
            levels: Seq::new(self.levels@.len(), |i: int| self.levels@[i]@),
            current: self.current,
        }
    }
}

/// Passes over the rest of a line: all bytes up to the next line feed, and
/// the line feed.
fn skip_line(stream: &mut ByteStream)
    ensures
        final(stream)@ == after_line(old(stream)@),
{
    let mut open = true;
    while open
        invariant
            after_line(old(stream)@) == if open {
                after_line(stream@)
            } else {
                stream@
            },
        decreases stream@.len() + if open { 1nat } else { 0nat },
    {
        match stream.next() {
            Some(b) => {
                if b == 10 {
                    open = false;
                }
            },
            None => {
                open = false;
            },
        }
    }
}

/// Passes over blanks up to the next byte that is none, which stays in the
/// stream.
fn skip_blanks(stream: &mut ByteStream)
    ensures
        final(stream)@ == trimmed(old(stream)@),
{
    let mut open = true;
    while open
        invariant
            trimmed(old(stream)@) == if open {
                trimmed(stream@)
            } else {
                stream@
            },
        decreases stream@.len() + if open { 1nat } else { 0nat },
    {
        let ghost before = stream@;
        match stream.next() {
            Some(b) => {
                if !blank(b) {
                    stream.put_back(b);
                    assert(stream@ =~= before);
                    open = false;
                }
            },
            None => {
                open = false;
            },
        }
    }
}

impl LevelSet {
    /// Reads a set of levels from the bytes of a level file. The first level
    /// is current. Where a record begins and cannot be completed, nothing is
    /// read.
    pub fn load(data: Vec<u8>) -> (r: Result<LevelSet, LoadError>)
        ensures
            match scan(data@) {
                Some(records) => r matches Ok(set) && set@.levels == fresh_levels(records)
                    && set@.current == 0 && set@.wf(),
                None => r matches Err(e) && e == LoadError::NotEnoughData,
            },
    {
        let ghost whole = data@;
        let mut levels: Vec<Level> = Vec::new();
        let mut stream = ByteStream::new(data);
        let ghost mut read: Seq<Seq<u8>> = Seq::empty();
        let mut open = true;
        proof {
            if let Some(records) = scan(whole) {
                assert(read + records =~= records);
            }
        }
        while open
            invariant
                whole == data@,
                scan(whole) == extended(read, if open { scan(stream@) } else { Some(Seq::empty()) }),
                levels@.len() == read.len(),
                forall|i: int|
                    0 <= i < levels@.len() ==> (#[trigger] levels@[i])@ == LevelView::fresh(read[i])
                        && levels@[i]@.wf(),
            decreases stream@.len() + if open { 1nat } else { 0nat },
        {
            let ghost here = stream@;
            match stream.next() {
                None => {
                    open = false;
                },
                Some(b) => {
                    if b == 35 {
                        // A comment line before a level.
                        proof {
                            lemma_after_line(here);
                        }
                        skip_line(&mut stream);
                    } else if blank(b) {
                        // Blanks between levels.
                        proof {
                            lemma_scan_trimmed(here.skip(1));
                        }
                        skip_blanks(&mut stream);
                    } else {
                        stream.put_back(b);
                        assert(stream@ =~= here);
                        if stream.remaining() < 64 {
                            open = false;
                        } else {
                            proof {
                                lemma_take_glyphs(here, 64);
                            }
                            match read_record(&mut stream) {
                                Some(record) => {
                                    levels.push(Level::from_record(record));
                                    proof {
                                        let glyphs = take_glyphs(here, 64).unwrap().0;
                                        let before = read;
                                        read = read.push(glyphs);
                                        if let Some(records) = scan(stream@) {
                                            assert(before + (seq![glyphs] + records) =~= read
                                                + records);
                                        }
                                    }
                                },
                                None => {
                                    assert(scan(here) is None);
                                    return Err(LoadError::NotEnoughData);
                                },
                            }
                        }
                    }
                },
            }
        }
        let set = LevelSet { levels, current: 0 };
        proof {
            assert(read + Seq::<Seq<u8>>::empty() =~= read);
            assert(set@.levels =~= fresh_levels(read));
        }
        Ok(set)
    }

    /// Number of levels.
    pub fn len(&self) -> (n: usize)
        ensures
            n == self@.levels.len(),
    {
        self.levels.len()
    }

    /// Index of the level that is being played.
    pub fn index(&self) -> (i: usize)
        ensures
            i == self@.current,
    {
        self.current
    }

    /// The level that is being played, to act on.
    pub fn current(&mut self) -> (level: &mut Level)
        requires
            old(self)@.current < old(self)@.levels.len(),
        ensures
            level@ == old(self)@.level(),
            final(self)@ == old(self)@.with_current(final(level)@),
    {
        &mut self.levels[self.current]
    }

    /// The level that is being played, to look at.
    pub fn current_ref(&self) -> (level: &Level)
        requires
            self@.current < self@.levels.len(),
        ensures
            level@ == self@.level(),
    {
        &self.levels[self.current]
    }

    /// Makes the next level current. At the last level nothing changes.
    pub fn next(&mut self)
        ensures
            final(self)@ == old(self)@.advanced(),
            final(self)@.levels == old(self)@.levels,
            old(self)@.current + 1 < old(self)@.levels.len() ==> final(self)@.current == old(
                self,
            )@.current + 1,
            old(self)@.current + 1 >= old(self)@.levels.len() ==> final(self)@ == old(self)@,
    {
        if self.levels.len() > 0 && self.current < self.levels.len() - 1 {
            self.current += 1;
        }
        assert(self@ =~= old(self)@.advanced());
    }

    /// Makes the level before current. At the first level nothing changes.
    pub fn previous(&mut self)
        ensures
            final(self)@ == old(self)@.retreated(),
            final(self)@.levels == old(self)@.levels,
            old(self)@.current > 0 ==> final(self)@.current == old(self)@.current - 1,
            old(self)@.current == 0 ==> final(self)@ == old(self)@,
    {
        if self.current > 0 {
            self.current -= 1;
        }
        assert(self@ =~= old(self)@.retreated());
    }

    /// A tick in a window of `width` by `height` pixels. The current level
    /// takes the tick. Once it is solved, it starts over and the next level
    /// becomes current, in one step.
    pub fn update(&mut self, width: usize, height: usize)
        requires
            old(self)@.wf(),
            old(self)@.levels.len() > 0,
        ensures
            final(self)@ == old(self)@.updated(width, height),
            final(self)@.wf(),
    {
        let level = self.current();
        level.update(width, height);
        let solved = level.solved();
        if solved {
            level.reset();
        }
        if solved {
            self.next();
        }
    }

    /// One round of input: `next`, `previous` and `reset` tell which keys
    /// were released, the rest goes to the current level. The result tells
    /// the caller what the round did on that level.
    pub fn interact(
        &mut self,
        next: bool,
        previous: bool,
        reset: bool,
        pressed: bool,
        cursor: Option<(usize, usize)>,
        undo: bool,
    ) -> (round: Round)
        requires
            old(self)@.wf(),
            old(self)@.levels.len() > 0,
        ensures
            final(self)@ == old(self)@.interacted(next, previous, reset, pressed, cursor, undo),
            final(self)@.wf(),
            round == old(self)@.keyed(next, previous, reset).level().round(pressed),
    {
        if next {
            self.next();
        }
        if previous {
            self.previous();
        }
        if reset {
            self.current().reset();
        }
        self.current().interact(pressed, cursor, undo)
    }
}

} // verus!
