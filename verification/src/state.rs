//! One icon state, and the parser of a state block.

use vstd::prelude::*;
use vstd::string::*;
use crate::error::DmiError;
use crate::number::{decimal_literal, exact, parse_decimal, parse_u32, u32_literal, Decimal};
use crate::text::{
    classify, copy_range, is_word, line_keyword, line_views, spells, split_line, value_of,
    Keyword,
};

verus! {

/// What is wrong with a line, before it is tied to the line's number.
#[derive(Debug, Clone, Copy, PartialEq, Eq, Structural)]
pub enum Fault {
    /// The line cannot be read.
    Malformed,
    /// The line reads well and breaks a rule of the model.
    Invalid,
}

/// One named animation state.
#[derive(Debug, Clone)]
pub struct IconState {
    state_name: Vec<u8>,
    number_of_dirs: u32,
    delays: Vec<Decimal>,
    number_of_frames: u32,
    moving: bool,
}

/// What an icon state holds.
pub struct IconStateView {
    pub state_name: Seq<u8>,
    pub number_of_dirs: u32,
    pub delays: Seq<Decimal>,
    pub number_of_frames: u32,
    pub moving: bool,
}

impl View for IconState {
    type V = IconStateView;

    closed spec fn view(&self) -> IconStateView {
        IconStateView {
            state_name: self.state_name@,
            number_of_dirs: self.number_of_dirs,
            delays: self.delays@,
            number_of_frames: self.number_of_frames,
            moving: self.moving,
        }
    }
}

/// The delay of a frame for which none was given.
pub open spec fn unit_delay() -> Decimal {
    Decimal { units: 1, fraction: 0, fraction_digits: 0 }
}

/// The state that a declaration line opens: one direction, one frame, no
/// delays given yet, not moving.
pub open spec fn fresh(name: Seq<u8>) -> IconStateView {
    IconStateView {
        state_name: name,
        number_of_dirs: 1,
        delays: Seq::empty(),
        number_of_frames: 1,
        moving: false,
    }
}

/// Whether the counts are ones that the format allows: 1, 4 or 8
/// directions, and at least one frame.
pub open spec fn counts_ok(st: IconStateView) -> bool {
    (st.number_of_dirs == 1 || st.number_of_dirs == 4 || st.number_of_dirs == 8)
        && st.number_of_frames >= 1
}

/// Whether every delay of a list is exact.
pub open spec fn all_exact(ds: Seq<Decimal>) -> bool {
    forall|k: int| 0 <= k < ds.len() ==> exact(#[trigger] ds[k])
}

/// What holds of a state while its block is read: its counts are allowed
/// and its delays are exact.
pub open spec fn sound(st: IconStateView) -> bool {
    counts_ok(st) && all_exact(st.delays)
}

/// Whether a state is complete: it is sound and has one delay for each
/// frame.
pub open spec fn well_formed(st: IconStateView) -> bool {
    sound(st) && st.delays.len() == st.number_of_frames
}

/// The delays of a closed block with `frames` frames: those given, cut off
/// after `frames`; where fewer were given, the last one repeated; where none
/// was given, one time unit for each frame.
pub open spec fn settled_delays(given: Seq<Decimal>, frames: u32) -> Seq<Decimal> {
    Seq::new(
        frames as nat,
        |k: int|
            if k < given.len() {
                given[k]
            } else if given.len() > 0 {
                given.last()
            } else {
                unit_delay()
            },
    )
}

/// The state as it stands once its block is closed.
pub open spec fn settled(st: IconStateView) -> IconStateView {
    IconStateView { delays: settled_delays(st.delays, st.number_of_frames), ..st }
}

/// The state after a `dirs` line with this value.
pub open spec fn with_dirs(st: IconStateView, value: Seq<u8>) -> Result<IconStateView, Fault> {
    match u32_literal(value) {
        None => Err(Fault::Malformed),
        Some(d) => if d == 1 || d == 4 || d == 8 {
            Ok(IconStateView { number_of_dirs: d, ..st })
        } else {
            Err(Fault::Invalid)
        },
    }
}

/// The state after a `frames` line with this value.
pub open spec fn with_frames(st: IconStateView, value: Seq<u8>) -> Result<IconStateView, Fault> {
    match u32_literal(value) {
        None => Err(Fault::Malformed),
        Some(n) => if n >= 1 {
            Ok(IconStateView { number_of_frames: n, ..st })
        } else {
            Err(Fault::Invalid)
        },
    }
}

/// Joins the delays read so far with those still to come.
pub open spec fn joined(head: Seq<Decimal>, tail: Option<Seq<Decimal>>) -> Option<Seq<Decimal>> {
    match tail {
        Some(rest) => Some(head + rest),
        None => None,
    }
}

/// The delays of a comma-separated list (a comma is byte 44), when the scan
/// stands at `i` and the item being read began at `start`; `None` if an
/// item is no decimal literal.
pub open spec fn delays_from(s: Seq<u8>, start: int, i: int) -> Option<Seq<Decimal>>
    decreases s.len() - i,
{
    if i < 0 || i >= s.len() {
        match decimal_literal(s.subrange(start, s.len() as int)) {
            Some(d) => Some(seq![d]),
            None => None,
        }
    } else if s[i] == 44 {
        match decimal_literal(s.subrange(start, i)) {
            Some(d) => joined(seq![d], delays_from(s, i + 1, i + 1)),
            None => None,
        }
    } else {
        delays_from(s, start, i + 1)
    }
}

/// The state after a `delay` line with this value.
pub open spec fn with_delay(st: IconStateView, value: Seq<u8>) -> Result<IconStateView, Fault> {
    match delays_from(value, 0, 0) {
        Some(ds) => Ok(IconStateView { delays: ds, ..st }),
        None => Err(Fault::Malformed),
    }
}

/// The flag that a `movement` value spells.
pub open spec fn flag_literal(value: Seq<u8>) -> Option<bool> {
    if spells(value, "1"@) || spells(value, "true"@) {
        Some(true)
    } else if spells(value, "0"@) || spells(value, "false"@) {
        Some(false)
    } else {
        None
    }
}

/// The state after a `movement` line with this value.
pub open spec fn with_movement(st: IconStateView, value: Seq<u8>) -> Result<
    IconStateView,
    Fault,
> {
    match flag_literal(value) {
        Some(flag) => Ok(IconStateView { moving: flag, ..st }),
        None => Err(Fault::Malformed),
    }
}

/// The state after one line of its block. Blank lines, comments and
/// keywords that this parser does not know leave it as it is; a header
/// keyword has no place in a block.
pub open spec fn with_line(st: IconStateView, line: Seq<u8>) -> Result<IconStateView, Fault> {
    match line_keyword(line) {
        Keyword::Dirs => with_dirs(st, value_of(line)),
        Keyword::Frames => with_frames(st, value_of(line)),
        Keyword::Delay => with_delay(st, value_of(line)),
        Keyword::Movement => with_movement(st, value_of(line)),
        Keyword::Version | Keyword::Width | Keyword::Height => Err(Fault::Malformed),
        _ => Ok(st),
    }
}

/// The name that a quoted value holds (a quote is byte 34).
pub open spec fn quoted_name(value: Seq<u8>) -> Option<Seq<u8>> {
    if value.len() >= 2 && value[0] == 34 && value.last() == 34 {
        Some(value.subrange(1, value.len() - 1))
    } else {
        None
    }
}

/// The state that a line opens, if it is a declaration `state = "name"`.
pub open spec fn opened(line: Seq<u8>) -> Result<IconStateView, Fault> {
    if line_keyword(line) == Keyword::State {
        match quoted_name(value_of(line)) {
            Some(name) => Ok(fresh(name)),
            None => Err(Fault::Malformed),
        }
    } else {
        Err(Fault::Malformed)
    }
}

/// Reads on in a block from line `i`: the closed state and the index of the
/// line that ended the block (the next declaration, or the number of
/// lines), or the index of the first line at fault.
pub open spec fn block_from(st: IconStateView, lines: Seq<Seq<u8>>, i: int) -> Result<
    (IconStateView, int),
    (int, Fault),
>
    decreases lines.len() - i,
{
    if i < 0 || i >= lines.len() || line_keyword(lines[i]) == Keyword::State {
        Ok((settled(st), i))
    } else {
        match with_line(st, lines[i]) {
            Ok(next) => block_from(next, lines, i + 1),
            Err(fault) => Err((i, fault)),
        }
    }
}

/// The block whose declaration is line `i`.
pub open spec fn block_at(lines: Seq<Seq<u8>>, i: int) -> Result<
    (IconStateView, int),
    (int, Fault),
> {
    match opened(lines[i]) {
        Ok(st) => block_from(st, lines, i + 1),
        Err(fault) => Err((i, fault)),
    }
}

/// Whether `e` reports the fault `fault.1` on line `fault.0` of `lines`,
/// with the line's number counted from 1 and its text.
pub open spec fn describes(e: DmiError, lines: Seq<Seq<u8>>, fault: (int, Fault)) -> bool {
    match fault.1 {
        Fault::Malformed => e matches DmiError::MalformedMetadata { line_number, line }
            && line_number == fault.0 + 1 && line@ == lines[fault.0],
        Fault::Invalid => e matches DmiError::ValidationError { line_number, line }
            && line_number == fault.0 + 1 && line@ == lines[fault.0],
    }
}

/// Builds the error for a fault on line `at`.
pub fn report(lines: &Vec<Vec<u8>>, at: usize, fault: Fault) -> (e: DmiError)
    requires
        at < lines@.len(),
    ensures
        describes(e, line_views(lines@), (at as int, fault)),
{
    let count: usize = lines.len();
    let line_number: usize = at + 1;
    let line = copy_range(lines[at].as_slice(), 0, lines[at].len());
    proof {
        assert(line_number <= count);
        assert(line@ =~= lines@[at as int]@);
    }
    match fault {
        Fault::Malformed => DmiError::MalformedMetadata { line_number, line },
        Fault::Invalid => DmiError::ValidationError { line_number, line },
    }
}

impl IconState {
    /// A state as its declaration opens it.
    pub fn named(name: Vec<u8>) -> (r: IconState)
        ensures
            r@ == fresh(name@),
            sound(r@),
    {
        IconState {
            state_name: name,
            number_of_dirs: 1,
            delays: Vec::new(),
            number_of_frames: 1,
            moving: false,
        }
    }

    /// Takes the value of a `dirs` line: a direction count of 1, 4 or 8.
    pub fn parse_dir(&mut self, value: &[u8]) -> (r: Result<(), Fault>)
        ensures
            match with_dirs(old(self)@, value@) {
                Ok(next) => r is Ok && final(self)@ == next,
                Err(fault) => r == Err::<(), Fault>(fault) && final(self)@ == old(self)@,
            },
            sound(old(self)@) ==> sound(final(self)@),
    {
        match parse_u32(value) {
            None => Err(Fault::Malformed),
            Some(d) => {
                if d == 1 || d == 4 || d == 8 {
                    self.number_of_dirs = d;
                    Ok(())
                } else {
                    Err(Fault::Invalid)
                }
            },
        }
    }

    /// Takes the value of a `frames` line: a frame count of at least 1.
    pub fn parse_frames(&mut self, value: &[u8]) -> (r: Result<(), Fault>)
        ensures
            match with_frames(old(self)@, value@) {
                Ok(next) => r is Ok && final(self)@ == next,
                Err(fault) => r == Err::<(), Fault>(fault) && final(self)@ == old(self)@,
            },
            sound(old(self)@) ==> sound(final(self)@),
    {
        match parse_u32(value) {
            None => Err(Fault::Malformed),
            Some(n) => {
                if n >= 1 {
                    self.number_of_frames = n;
                    Ok(())
                } else {
                    Err(Fault::Invalid)
                }
            },
        }
    }

    /// Takes the value of a `delay` line: decimal literals separated by
    /// commas, with no blank space between them, kept in their order.
    pub fn parse_delay(&mut self, value: &[u8]) -> (r: Result<(), Fault>)
        ensures
            match with_delay(old(self)@, value@) {
                Ok(next) => r is Ok && final(self)@ == next,
                Err(fault) => r == Err::<(), Fault>(fault) && final(self)@ == old(self)@,
            },
            r is Ok ==> all_exact(final(self)@.delays),
            sound(old(self)@) ==> sound(final(self)@),
    {
        let n: usize = value.len();
        let mut out: Vec<Decimal> = Vec::new();
        let mut start: usize = 0;
        let mut i: usize = 0;
        while i < n
            invariant
                n == value@.len(),
                start <= i <= n,
                delays_from(value@, 0, 0) == joined(out@, delays_from(value@, start as int, i as int)),
                all_exact(out@),
            decreases n - i,
        {
            if value[i] == 44 {
                let item = copy_range(value, start, i);
                match parse_decimal(item.as_slice()) {
                    None => {
                        return Err(Fault::Malformed);
                    },
                    Some(d) => {
                        proof {
                            let rest = delays_from(value@, i + 1, i + 1);
                            if rest is Some {
                                assert(out@ + (seq![d] + rest.unwrap()) =~= out@.push(d)
                                    + rest.unwrap());
                            }
                        }
                        out.push(d);
                        start = i + 1;
                    },
                }
            }
            i = i + 1;
        }
        let item = copy_range(value, start, n);
        match parse_decimal(item.as_slice()) {
            None => Err(Fault::Malformed),
            Some(d) => {
                proof {
                    assert(out@ + seq![d] =~= out@.push(d));
                }
                out.push(d);
                self.delays = out;
                Ok(())
            },
        }
    }

    /// Takes the value of a `movement` line: `1` or `true`, `0` or `false`.
    pub fn parse_movement(&mut self, value: &[u8]) -> (r: Result<(), Fault>)
        ensures
            match with_movement(old(self)@, value@) {
                Ok(next) => r is Ok && final(self)@ == next,
                Err(fault) => r == Err::<(), Fault>(fault) && final(self)@ == old(self)@,
            },
            sound(old(self)@) ==> sound(final(self)@),
    {
        proof {
            reveal_strlit("1");
            reveal_strlit("true");
            reveal_strlit("0");
            reveal_strlit("false");
            assert(value@.subrange(0, value@.len() as int) =~= value@);
        }
        let n: usize = value.len();
        if is_word(value, 0, n, "1") || is_word(value, 0, n, "true") {
            self.moving = true;
            Ok(())
        } else if is_word(value, 0, n, "0") || is_word(value, 0, n, "false") {
            self.moving = false;
            Ok(())
        } else {
            Err(Fault::Malformed)
        }
    }

    /// Takes one line of the block. Returns `false`, and leaves the state as
    /// it is, where the line declares the next state.
    pub fn take_line(&mut self, line: &[u8]) -> (r: Result<bool, Fault>)
        ensures
            line_keyword(line@) == Keyword::State ==> r == Ok::<bool, Fault>(false) && final(self)@
                == old(self)@,
            line_keyword(line@) != Keyword::State ==> match with_line(old(self)@, line@) {
                Ok(next) => r == Ok::<bool, Fault>(true) && final(self)@ == next,
                Err(fault) => r == Err::<bool, Fault>(fault) && final(self)@ == old(self)@,
            },
            sound(old(self)@) ==> sound(final(self)@),
    {
        let parts = split_line(line);
        let keyword = classify(line, parts.key_start, parts.key_end);
        let value = copy_range(line, parts.value_start, parts.value_end);
        let done = match keyword {
            Keyword::State => {
                return Ok(false);
            },
            Keyword::Dirs => self.parse_dir(value.as_slice()),
            Keyword::Frames => self.parse_frames(value.as_slice()),
            Keyword::Delay => self.parse_delay(value.as_slice()),
            Keyword::Movement => self.parse_movement(value.as_slice()),
            Keyword::Version | Keyword::Width | Keyword::Height => Err(Fault::Malformed),
            _ => Ok(()),
        };
        match done {
            Ok(()) => Ok(true),
            Err(fault) => Err(fault),
        }
    }

    /// Closes the block: brings the delays to one for each frame.
    pub fn settle(&mut self)
        ensures
            final(self)@ == settled(old(self)@),
            sound(old(self)@) ==> well_formed(final(self)@),
    {
        let frames: usize = self.number_of_frames as usize;
        let given: usize = self.delays.len();
        let mut out: Vec<Decimal> = Vec::new();
        let mut k: usize = 0;
        while k < frames
            invariant
                k <= frames,
                frames == self.number_of_frames,
                given == self.delays@.len(),
                out@.len() == k,
                forall|j: int|
                    0 <= j < k ==> out@[j] == settled_delays(
                        self.delays@,
                        self.number_of_frames,
                    )[j],
            decreases frames - k,
        {
            let d = if k < given {
                self.delays[k]
            } else if given > 0 {
                self.delays[given - 1]
            } else {
                Decimal::whole(1)
            };
            out.push(d);
            k = k + 1;
        }
        proof {
            assert(out@ =~= settled_delays(self.delays@, self.number_of_frames));
        }
        self.delays = out;
    }

    /// Parses the state block whose declaration is line `start`: the
    /// declaration `state = "name"`, then the lines up to the next
    /// declaration or the end. Returns the state and the index of the line
    /// that ended the block.
    pub fn parse_icon_state(lines: &Vec<Vec<u8>>, start: usize) -> (r: Result<
        (IconState, usize),
        DmiError,
    >)
        requires
            start < lines@.len(),
        ensures
            match (r, block_at(line_views(lines@), start as int)) {
                (Ok((state, next)), Ok((model, end))) => state@ == model && next == end
                    && well_formed(state@) && start < next <= lines@.len(),
                (Err(e), Err(fault)) => describes(e, line_views(lines@), fault),
                _ => false,
            },
    {
        let ghost views = line_views(lines@);
        let n: usize = lines.len();
        let first = lines[start].as_slice();
        let parts = split_line(first);
        let keyword = classify(first, parts.key_start, parts.key_end);
        let quoted = keyword == Keyword::State && parts.value_end - parts.value_start >= 2
            && first[parts.value_start] == 34 && first[parts.value_end - 1] == 34;
        if !quoted {
            return Err(report(lines, start, Fault::Malformed));
        }
        let name = copy_range(first, parts.value_start + 1, parts.value_end - 1);
        proof {
            let v = value_of(views[start as int]);
            assert(name@ =~= v.subrange(1, v.len() - 1));
        }
        let mut state = IconState::named(name);
        let mut i: usize = start + 1;
        let mut more: bool = true;
        while more && i < n
            invariant
                views == line_views(lines@),
                n == lines@.len(),
                start < i <= n,
                sound(state@),
                block_at(views, start as int) == block_from(state@, views, i as int),
                !more ==> i < n && line_keyword(views[i as int]) == Keyword::State,
            decreases n - i + if more { 1int } else { 0int },
        {
            let line = lines[i].as_slice();
            match state.take_line(line) {
                Ok(true) => {
                    i = i + 1;
                },
                Ok(false) => {
                    more = false;
                },
                Err(fault) => {
                    return Err(report(lines, i, fault));
                },
            }
        }
        state.settle();
        Ok((state, i))
    }

    /// The state's name; the empty name is the default state.
    pub fn state_name(&self) -> (r: &Vec<u8>)
        ensures
            r@ == self@.state_name,
    {
        &self.state_name
    }

    /// How many directions the state is drawn in.
    pub fn number_of_dirs(&self) -> (r: u32)
        ensures
            r == self@.number_of_dirs,
    {
        self.number_of_dirs
    }

    /// How many frames the animation has.
    pub fn number_of_frames(&self) -> (r: u32)
        ensures
            r == self@.number_of_frames,
    {
        self.number_of_frames
    }

    /// The delay of each frame.
    pub fn delays(&self) -> (r: &Vec<Decimal>)
        ensures
            r@ == self@.delays,
    {
        &self.delays
    }

    /// Whether this is the variant drawn while moving.
    pub fn moving(&self) -> (r: bool)
        ensures
            r == self@.moving,
    {
        self.moving
    }
}

} // verus!
