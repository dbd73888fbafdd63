//! The parsed document: the header fields and the states in their order.

use vstd::prelude::*;
use crate::error::DmiError;
use crate::number::{decimal_literal, parse_decimal, parse_u32, u32_literal, Decimal};
use crate::state::{
    block_at, block_from, describes, fresh, opened, quoted_name, report, settled, settled_delays,
    well_formed, with_line, Fault, IconState, IconStateView,
};
use crate::text::{
    classify, copy_range, line_keyword, line_views, lines_of, split_line, split_lines, value_of,
    Keyword,
};

verus! {

/// The fields of the header. Each is zero until its line is read.
#[derive(Debug, Clone, Copy, PartialEq, Eq, Structural)]
pub struct Header {
    pub version: Decimal,
    pub width: u32,
    pub height: u32,
}

/// The metadata of one icon.
#[derive(Debug, Clone)]
pub struct IconMetaData {
    /// The format version, as the block gives it.
    pub version: Decimal,
    /// Width in pixels of every state of this icon.
    pub width: u32,
    /// Height in pixels of every state of this icon.
    pub height: u32,
    /// The states, in the order of the block.
    pub icon_states: Vec<IconState>,
}

/// What a document holds.
pub struct IconMetaDataView {
    pub version: Decimal,
    pub width: u32,
    pub height: u32,
    pub icon_states: Seq<IconStateView>,
}

/// What a vector of states holds, state by state.
pub open spec fn state_views(states: Seq<IconState>) -> Seq<IconStateView> {
    Seq::new(states.len(), |i: int| states[i]@)
}

impl View for IconMetaData {
    type V = IconMetaDataView;

    open spec fn view(&self) -> IconMetaDataView {
        IconMetaDataView {
            version: self.version,
            width: self.width,
            height: self.height,
            icon_states: state_views(self.icon_states@),
        }
    }
}

/// The header before any line is read.
pub open spec fn blank_header() -> Header {
    Header {
        version: Decimal { units: 0, fraction: 0, fraction_digits: 0 },
        width: 0,
        height: 0,
    }
}

/// The header after one line of the header phase. Blank lines and comments
/// leave it as it is; any keyword but `version`, `width` and `height` is
/// a fault there.
pub open spec fn with_header_line(h: Header, line: Seq<u8>) -> Result<Header, Fault> {
    match line_keyword(line) {
        Keyword::Blank | Keyword::Comment => Ok(h),
        Keyword::Version => match decimal_literal(value_of(line)) {
            Some(version) => Ok(Header { version, ..h }),
            None => Err(Fault::Malformed),
        },
        Keyword::Width => match u32_literal(value_of(line)) {
            Some(width) => Ok(Header { width, ..h }),
            None => Err(Fault::Malformed),
        },
        Keyword::Height => match u32_literal(value_of(line)) {
            Some(height) => Ok(Header { height, ..h }),
            None => Err(Fault::Malformed),
        },
        _ => Err(Fault::Malformed),
    }
}

/// Reads on in the header from line `i`: the header and the index of the
/// first declaration of a state (or the number of lines), or the index of
/// the first line at fault.
pub open spec fn header_from(h: Header, lines: Seq<Seq<u8>>, i: int) -> Result<
    (Header, int),
    (int, Fault),
>
    decreases lines.len() - i,
{
    if i < 0 || i >= lines.len() || line_keyword(lines[i]) == Keyword::State {
        Ok((h, i))
    } else {
        match with_header_line(h, lines[i]) {
            Ok(next) => header_from(next, lines, i + 1),
            Err(fault) => Err((i, fault)),
        }
    }
}

/// Puts the states read so far before those still to come.
pub open spec fn after(head: Seq<IconStateView>, tail: Result<Seq<IconStateView>, (int, Fault)>)
    -> Result<Seq<IconStateView>, (int, Fault)> {
    match tail {
        Ok(rest) => Ok(head + rest),
        Err(fault) => Err(fault),
    }
}

/// The states whose declarations stand at line `i` or later, in order, or
/// the first fault in any of their blocks.
pub open spec fn states_from(lines: Seq<Seq<u8>>, i: int) -> Result<
    Seq<IconStateView>,
    (int, Fault),
>
    decreases lines.len() - i,
{
    if i < 0 || i >= lines.len() {
        Ok(Seq::empty())
    } else if line_keyword(lines[i]) != Keyword::State {
        states_from(lines, i + 1)
    } else {
        match block_at(lines, i) {
            Ok((state, _)) => after(seq![state], states_from(lines, i + 1)),
            Err(fault) => Err(fault),
        }
    }
}

/// The document that a sequence of lines spells, or the first fault.
pub open spec fn document(lines: Seq<Seq<u8>>) -> Result<IconMetaDataView, (int, Fault)> {
    match header_from(blank_header(), lines, 0) {
        Err(fault) => Err(fault),
        Ok((h, first)) => match states_from(lines, first) {
            Err(fault) => Err(fault),
            Ok(states) => Ok(
                IconMetaDataView {
                    version: h.version,
                    width: h.width,
                    height: h.height,
                    icon_states: states,
                },
            ),
        },
    }
}

/// The names that the declarations at line `i` or later give, in order:
/// for each declaration the name between its quotes, if it has one.
pub open spec fn declared_names(lines: Seq<Seq<u8>>, i: int) -> Seq<Option<Seq<u8>>>
    decreases lines.len() - i,
{
    if i < 0 || i >= lines.len() {
        Seq::empty()
    } else if line_keyword(lines[i]) == Keyword::State {
        seq![quoted_name(value_of(lines[i]))] + declared_names(lines, i + 1)
    } else {
        declared_names(lines, i + 1)
    }
}

/// A block ends at the next declaration or at the end of the lines, and
/// holds no declaration before that; the closed state keeps the name it
/// was opened with.
pub proof fn lemma_block_extent(st: IconStateView, lines: Seq<Seq<u8>>, i: int)
    requires
        0 <= i <= lines.len(),
        block_from(st, lines, i) is Ok,
    ensures
        ({
            let (model, end) = (block_from(st, lines, i)->Ok_0);
            &&& i <= end <= lines.len()
            &&& end < lines.len() ==> line_keyword(lines[end]) == Keyword::State
            &&& forall|k: int| i <= k < end ==> line_keyword(#[trigger] lines[k]) != Keyword::State
            &&& model.state_name == st.state_name
        }),
    decreases lines.len() - i,
{
    if i >= lines.len() || line_keyword(lines[i]) == Keyword::State {
    } else {
        let next = (with_line(st, lines[i])->Ok_0);
        lemma_block_extent(next, lines, i + 1);
    }
}

/// Lines that declare no state add no state.
pub proof fn lemma_skip_lines(lines: Seq<Seq<u8>>, from: int, to: int)
    requires
        0 <= from <= to <= lines.len(),
        forall|k: int| from <= k < to ==> line_keyword(#[trigger] lines[k]) != Keyword::State,
    ensures
        states_from(lines, from) == states_from(lines, to),
        declared_names(lines, from) == declared_names(lines, to),
    decreases to - from,
{
    if from < to {
        assert(line_keyword(lines[from]) != Keyword::State);
        lemma_skip_lines(lines, from + 1, to);
    }
}

/// The header phase ends before the first declaration.
pub proof fn lemma_header_extent(h: Header, lines: Seq<Seq<u8>>, i: int)
    requires
        0 <= i <= lines.len(),
        header_from(h, lines, i) is Ok,
    ensures
        ({
            let end = (header_from(h, lines, i)->Ok_0).1;
            &&& i <= end <= lines.len()
            &&& forall|k: int| i <= k < end ==> line_keyword(#[trigger] lines[k]) != Keyword::State
        }),
    decreases lines.len() - i,
{
    if i >= lines.len() || line_keyword(lines[i]) == Keyword::State {
    } else {
        lemma_header_extent((with_header_line(h, lines[i])->Ok_0), lines, i + 1);
    }
}

/// The states read from line `i` on are as many as the declarations there,
/// and each has the name of its declaration.
pub proof fn lemma_states_match_declarations(lines: Seq<Seq<u8>>, i: int)
    requires
        0 <= i <= lines.len(),
        states_from(lines, i) is Ok,
    ensures
        (states_from(lines, i)->Ok_0).len() == declared_names(lines, i).len(),
        forall|k: int|
            0 <= k < declared_names(lines, i).len() ==> #[trigger] declared_names(lines, i)[k]
                == Some((states_from(lines, i)->Ok_0)[k].state_name),
    decreases lines.len() - i,
{
    if i >= lines.len() {
    } else if line_keyword(lines[i]) != Keyword::State {
        lemma_states_match_declarations(lines, i + 1);
    } else {
        lemma_states_match_declarations(lines, i + 1);
        let opening = (opened(lines[i])->Ok_0);
        lemma_block_extent(opening, lines, i + 1);
        let state = (block_at(lines, i)->Ok_0).0;
        let rest = (states_from(lines, i + 1)->Ok_0);
        let names = declared_names(lines, i + 1);
        assert((states_from(lines, i)->Ok_0) == seq![state] + rest);
        assert(declared_names(lines, i) == seq![quoted_name(value_of(lines[i]))] + names);
        assert forall|k: int| 0 <= k < declared_names(lines, i).len() implies #[trigger] declared_names(
            lines,
            i,
        )[k] == Some((states_from(lines, i)->Ok_0)[k].state_name) by {
            if k > 0 {
                assert(declared_names(lines, i)[k] == names[k - 1]);
                assert((states_from(lines, i)->Ok_0)[k] == rest[k - 1]);
            }
        }
    }
}

/// A document has one state for each line that declares one, in the order
/// of those lines, each under the name that its line gives.
pub proof fn lemma_one_state_per_declaration(lines: Seq<Seq<u8>>)
    requires
        document(lines) is Ok,
    ensures
        (document(lines)->Ok_0).icon_states.len() == declared_names(lines, 0).len(),
        forall|k: int|
            0 <= k < declared_names(lines, 0).len() ==> #[trigger] declared_names(lines, 0)[k]
                == Some((document(lines)->Ok_0).icon_states[k].state_name),
{
    lemma_header_extent(blank_header(), lines, 0);
    let first = (header_from(blank_header(), lines, 0)->Ok_0).1;
    lemma_skip_lines(lines, 0, first);
    lemma_states_match_declarations(lines, first);
}

/// Whether a line sets a field of the header.
pub open spec fn sets_header_field(line: Seq<u8>) -> bool {
    line_keyword(line) == Keyword::Version || line_keyword(line) == Keyword::Width
        || line_keyword(line) == Keyword::Height
}

/// Two lines that set different fields of the header give the same header
/// in either order.
pub proof fn lemma_header_order(h: Header, a: Seq<u8>, b: Seq<u8>)
    requires
        sets_header_field(a),
        sets_header_field(b),
        line_keyword(a) != line_keyword(b),
        with_header_line(h, a) is Ok,
        with_header_line(h, b) is Ok,
    ensures
        with_header_line((with_header_line(h, a)->Ok_0), b) == with_header_line(
            (with_header_line(h, b)->Ok_0),
            a,
        ),
        with_header_line((with_header_line(h, a)->Ok_0), b) is Ok,
{
}

/// The lines with those at `i` and `i + 1` in each other's place.
pub open spec fn swapped(lines: Seq<Seq<u8>>, i: int) -> Seq<Seq<u8>> {
    lines.update(i, lines[i + 1]).update(i + 1, lines[i])
}

/// Whether two sequences of lines are as long as each other and hold the
/// same lines from `from` on.
pub open spec fn same_from(a: Seq<Seq<u8>>, b: Seq<Seq<u8>>, from: int) -> bool {
    a.len() == b.len() && forall|k: int| from <= k < a.len() ==> a[k] == b[k]
}

/// What is read from line `i` on depends on the lines from `i` on alone.
pub proof fn lemma_reading_is_local(
    h: Header,
    st: IconStateView,
    a: Seq<Seq<u8>>,
    b: Seq<Seq<u8>>,
    i: int,
)
    requires
        0 <= i,
        same_from(a, b, i),
    ensures
        header_from(h, a, i) == header_from(h, b, i),
        block_from(st, a, i) == block_from(st, b, i),
        states_from(a, i) == states_from(b, i),
    decreases a.len() - i,
{
    if i < a.len() {
        assert(a[i] == b[i]);
        if line_keyword(a[i]) != Keyword::State {
            if with_header_line(h, a[i]) is Ok {
                lemma_reading_is_local((with_header_line(h, a[i])->Ok_0), st, a, b, i + 1);
            }
            if with_line(st, a[i]) is Ok {
                lemma_reading_is_local(h, (with_line(st, a[i])->Ok_0), a, b, i + 1);
            }
        }
        lemma_reading_is_local(h, st, a, b, i + 1);
        if opened(a[i]) is Ok {
            lemma_reading_is_local(h, (opened(a[i])->Ok_0), a, b, i + 1);
        }
    }
}

/// Reading the header from line `from` on gives the same whether or not
/// the lines at `i` and `i + 1` have changed places.
pub proof fn lemma_header_swap(h: Header, lines: Seq<Seq<u8>>, from: int, i: int)
    requires
        0 <= from <= i,
        i + 1 < lines.len(),
        sets_header_field(lines[i]),
        sets_header_field(lines[i + 1]),
        line_keyword(lines[i]) != line_keyword(lines[i + 1]),
        with_header_line(h, lines[i]) is Ok,
        with_header_line(h, lines[i + 1]) is Ok,
    ensures
        header_from(h, swapped(lines, i), from) == header_from(h, lines, from),
    decreases i - from,
{
    let other = swapped(lines, i);
    if from < i {
        assert(other[from] == lines[from]);
        if line_keyword(lines[from]) != Keyword::State && with_header_line(h, lines[from]) is Ok {
            lemma_header_swap((with_header_line(h, lines[from])->Ok_0), lines, from + 1, i);
        }
    } else {
        let a = lines[i];
        let b = lines[i + 1];
        assert(other[i] == b && other[i + 1] == a);
        lemma_header_order(h, a, b);
        let ha = (with_header_line(h, a)->Ok_0);
        let hb = (with_header_line(h, b)->Ok_0);
        let hab = (with_header_line(ha, b)->Ok_0);
        assert(header_from(ha, lines, i + 1) == header_from(hab, lines, i + 2));
        assert(header_from(hb, other, i + 1) == header_from(hab, other, i + 2));
        lemma_reading_is_local(hab, fresh(Seq::empty()), other, lines, i + 2);
    }
}

/// The order of the header's lines does not matter: where two neighbouring
/// lines of the header, each with a value that reads well, set different
/// fields, the document is the same with the two in each other's place.
pub proof fn lemma_header_lines_commute(lines: Seq<Seq<u8>>, i: int)
    requires
        0 <= i,
        i + 1 < lines.len(),
        forall|k: int| 0 <= k < i ==> line_keyword(#[trigger] lines[k]) != Keyword::State,
        sets_header_field(lines[i]),
        sets_header_field(lines[i + 1]),
        line_keyword(lines[i]) != line_keyword(lines[i + 1]),
        with_header_line(blank_header(), lines[i]) is Ok,
        with_header_line(blank_header(), lines[i + 1]) is Ok,
    ensures
        document(swapped(lines, i)) == document(lines),
{
    let other = swapped(lines, i);
    lemma_header_swap(blank_header(), lines, 0, i);
    if header_from(blank_header(), lines, 0) is Ok {
        lemma_header_extent(blank_header(), lines, 0);
        let first = (header_from(blank_header(), lines, 0)->Ok_0).1;
        lemma_header_reaches(blank_header(), lines, 0, i + 2);
        lemma_reading_is_local(blank_header(), fresh(Seq::empty()), other, lines, first);
    }
}

/// The header phase does not end before a line that no declaration comes
/// before.
pub proof fn lemma_header_reaches(h: Header, lines: Seq<Seq<u8>>, i: int, to: int)
    requires
        0 <= i <= to <= lines.len(),
        forall|k: int| i <= k < to ==> line_keyword(#[trigger] lines[k]) != Keyword::State,
        header_from(h, lines, i) is Ok,
    ensures
        (header_from(h, lines, i)->Ok_0).1 >= to,
    decreases to - i,
{
    if i < to {
        assert(line_keyword(lines[i]) != Keyword::State);
        lemma_header_reaches((with_header_line(h, lines[i])->Ok_0), lines, i + 1, to);
    } else {
        lemma_header_extent(h, lines, i);
    }
}

/// Closing a block that is already closed changes nothing.
pub proof fn lemma_settled_twice(st: IconStateView)
    ensures
        settled(settled(st)) == settled(st),
        st.delays.len() == st.number_of_frames ==> settled(st) == st,
{
    let once = settled_delays(st.delays, st.number_of_frames);
    assert(settled_delays(once, st.number_of_frames) =~= once);
    if st.delays.len() == st.number_of_frames {
        assert(once =~= st.delays);
    }
}

impl Header {
    /// The header before any line is read.
    pub fn blank() -> (r: Header)
        ensures
            r == blank_header(),
    {
        Header { version: Decimal::whole(0), width: 0, height: 0 }
    }

    /// Takes one line of the header phase. Returns `false`, and leaves the
    /// header as it is, where the line declares a state.
    pub fn take_line(&mut self, line: &[u8]) -> (r: Result<bool, Fault>)
        ensures
            line_keyword(line@) == Keyword::State ==> r == Ok::<bool, Fault>(false) && *final(self)
                == *old(self),
            line_keyword(line@) != Keyword::State ==> match with_header_line(*old(self), line@) {
                Ok(next) => r == Ok::<bool, Fault>(true) && *final(self) == next,
                Err(fault) => r == Err::<bool, Fault>(fault) && *final(self) == *old(self),
            },
    {
        let parts = split_line(line);
        let keyword = classify(line, parts.key_start, parts.key_end);
        let value = copy_range(line, parts.value_start, parts.value_end);
        match keyword {
            Keyword::State => Ok(false),
            Keyword::Blank | Keyword::Comment => Ok(true),
            Keyword::Version => match parse_decimal(value.as_slice()) {
                Some(version) => {
                    self.version = version;
                    Ok(true)
                },
                None => Err(Fault::Malformed),
            },
            Keyword::Width => match parse_u32(value.as_slice()) {
                Some(width) => {
                    self.width = width;
                    Ok(true)
                },
                None => Err(Fault::Malformed),
            },
            Keyword::Height => match parse_u32(value.as_slice()) {
                Some(height) => {
                    self.height = height;
                    Ok(true)
                },
                None => Err(Fault::Malformed),
            },
            _ => Err(Fault::Malformed),
        }
    }
}

impl IconMetaData {
    /// Parses a metadata block.
    ///
    /// The result is the document that the lines of `metadata` spell: the
    /// header fields, and one complete state for each declaration. On the
    /// first line at fault the whole parse fails with that line's number
    /// and text.
    pub fn new(metadata: &[u8]) -> (r: Result<IconMetaData, DmiError>)
        ensures
            match (r, document(lines_of(metadata@))) {
                (Ok(doc), Ok(model)) => doc@ == model && forall|k: int|
                    0 <= k < doc@.icon_states.len() ==> well_formed(#[trigger] doc@.icon_states[k]),
                (Err(e), Err(fault)) => describes(e, lines_of(metadata@), fault),
                _ => false,
            },
    {
        let lines = split_lines(metadata);
        IconMetaData::parse_metadata(&lines)
    }

    /// Parses a metadata block that is already split into lines: first the
    /// header, up to the first declaration of a state, then the state
    /// blocks one after another.
    pub fn parse_metadata(lines: &Vec<Vec<u8>>) -> (r: Result<IconMetaData, DmiError>)
        ensures
            match (r, document(line_views(lines@))) {
                (Ok(doc), Ok(model)) => doc@ == model && forall|k: int|
                    0 <= k < doc@.icon_states.len() ==> well_formed(#[trigger] doc@.icon_states[k]),
                (Err(e), Err(fault)) => describes(e, line_views(lines@), fault),
                _ => false,
            },
    {
        let ghost views = line_views(lines@);
        let n: usize = lines.len();
        let mut header = Header::blank();
        let mut i: usize = 0;
        let mut more: bool = true;
        while more && i < n
            invariant
                views == line_views(lines@),
                n == lines@.len(),
                i <= n,
                header_from(blank_header(), views, 0) == header_from(header, views, i as int),
                !more ==> i < n && line_keyword(views[i as int]) == Keyword::State,
            decreases n - i + if more { 1int } else { 0int },
        {
            match header.take_line(lines[i].as_slice()) {
                Ok(true) => {
                    i = i + 1;
                },
                Ok(false) => {
                    more = false;
                },
                Err(fault) => {
                    return Err(report(lines, i, fault));
                },
            }
        }
        let ghost first: int = i as int;
        let mut states: Vec<IconState> = Vec::new();
        while i < n
            invariant
                views == line_views(lines@),
                n == lines@.len(),
                0 <= first <= i <= n,
                header_from(blank_header(), views, 0) == Ok::<(Header, int), (int, Fault)>(
                    (header, first),
                ),
                i < n ==> line_keyword(views[i as int]) == Keyword::State,
                states_from(views, first) == after(
                    state_views(states@),
                    states_from(views, i as int),
                ),
                forall|k: int|
                    0 <= k < states@.len() ==> well_formed(#[trigger] state_views(states@)[k]),
            decreases n - i,
        {
            match IconState::parse_icon_state(lines, i) {
                Err(e) => {
                    return Err(e);
                },
                Ok((state, next)) => {
                    proof {
                        let opening = (opened(views[i as int])->Ok_0);
                        lemma_block_extent(opening, views, i + 1);
                        lemma_skip_lines(views, i + 1, next as int);
                        let head = state_views(states@);
                        let tail = states_from(views, next as int);
                        assert(states_from(views, i as int) == after(seq![state@], tail));
                        assert(state_views(states@.push(state)) =~= head.push(state@));
                        if tail is Ok {
                            assert(head + (seq![state@] + (tail->Ok_0)) =~= head.push(state@)
                                + (tail->Ok_0));
                        }
                    }
                    states.push(state);
                    i = next;
                },
            }
        }
        proof {
            assert(state_views(states@) + Seq::<IconStateView>::empty() =~= state_views(states@));
        }
        Ok(
            IconMetaData {
                version: header.version,
                width: header.width,
                height: header.height,
                icon_states: states,
            },
        )
    }
}

} // verus!
