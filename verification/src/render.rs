//! The text that spells a state, the proof that the parser reads it back
//! as the same state, and the proof that every state of a document is
//! complete.

use vstd::prelude::*;
use vstd::string::*;
use crate::number::{
    all_digits, decimal_literal, digits_value, exact, is_digit, lemma_literal_is_exact,
    point_from, pow10, Decimal,
};
use crate::metadata::{
    blank_header, document, header_from, lemma_settled_twice, states_from,
};
use crate::state::{
    all_exact, block_at, block_from, delays_from, flag_literal, fresh, opened, quoted_name,
    settled, sound, well_formed, with_line, Fault, IconState, IconStateView,
};
use crate::text::{
    is_space, key_end_of, key_of, key_start_of, keyword_of, line_keyword, line_views,
    skip_spaces, skip_word, trim_end, value_end_of, value_of, value_start_of, word_bytes, Keyword,
};

verus! {

/// The digits of `n` in base ten, without leading zeros.
pub open spec fn digits_of(n: nat) -> Seq<u8>
    decreases n,
{
    if n < 10 {
        seq![(48 + n) as u8]
    } else {
        digits_of(n / 10).push((48 + n % 10) as u8)
    }
}

/// The last `width` digits of `n` in base ten, with leading zeros.
pub open spec fn fixed_digits(n: nat, width: nat) -> Seq<u8>
    decreases width,
{
    if width == 0 {
        Seq::empty()
    } else {
        fixed_digits(n / 10, (width - 1) as nat).push((48 + n % 10) as u8)
    }
}

/// The text of a decimal: its units, and where it has fraction digits a
/// point (byte 46) and those digits.
pub open spec fn decimal_text(d: Decimal) -> Seq<u8> {
    if d.fraction_digits == 0 {
        digits_of(d.units as nat)
    } else {
        digits_of(d.units as nat) + seq![46u8] + fixed_digits(
            d.fraction as nat,
            d.fraction_digits as nat,
        )
    }
}

/// The text of a list of delays: their texts with commas (byte 44) between
/// them.
pub open spec fn delays_text(ds: Seq<Decimal>) -> Seq<u8>
    decreases ds.len(),
{
    if ds.len() == 0 {
        Seq::empty()
    } else if ds.len() == 1 {
        decimal_text(ds[0])
    } else {
        decimal_text(ds[0]) + seq![44u8] + delays_text(ds.drop_first())
    }
}

/// A digit appended to a run of digits: ten times the run's value, plus the
/// digit.
pub proof fn lemma_value_push(s: Seq<u8>, d: u8)
    requires
        is_digit(d),
        s.len() > 0 ==> all_digits(s),
    ensures
        all_digits(s.push(d)),
        digits_value(s.push(d)) == digits_value(s) * 10 + (d - 48),
{
    let t = s.push(d);
    assert(t.drop_last() =~= s);
    assert(t.last() == d);
    assert forall|i: int| 0 <= i < t.len() implies is_digit(#[trigger] t[i]) by {
        if i < s.len() {
            assert(t[i] == s[i]);
        }
    }
}

/// The digits of `n` spell `n`.
pub proof fn lemma_digits_of(n: nat)
    ensures
        all_digits(digits_of(n)),
        digits_value(digits_of(n)) == n,
    decreases n,
{
    if n < 10 {
        lemma_value_push(Seq::empty(), (48 + n) as u8);
        assert(Seq::<u8>::empty().push((48 + n) as u8) =~= digits_of(n));
    } else {
        lemma_digits_of(n / 10);
        lemma_value_push(digits_of(n / 10), (48 + n % 10) as u8);
    }
}

/// The `width` digits of a number below ten to the `width` spell it.
pub proof fn lemma_fixed_digits(n: nat, width: nat)
    requires
        n < pow10(width),
    ensures
        fixed_digits(n, width).len() == width,
        width > 0 ==> all_digits(fixed_digits(n, width)),
        digits_value(fixed_digits(n, width)) == n,
    decreases width,
{
    if width > 0 {
        lemma_fixed_digits(n / 10, (width - 1) as nat);
        lemma_value_push(fixed_digits(n / 10, (width - 1) as nat), (48 + n % 10) as u8);
    }
}

/// Where the first point stands, given that none stands before `p`.
pub proof fn lemma_point(s: Seq<u8>, i: int, p: int)
    requires
        0 <= i <= p <= s.len(),
        forall|k: int| i <= k < p ==> s[k] != 46,
        p < s.len() ==> s[p] == 46,
    ensures
        point_from(s, i) == p,
    decreases p - i,
{
    if i < p {
        lemma_point(s, i + 1, p);
    }
}

/// The text of an exact decimal reads back as that decimal, and holds no
/// comma.
pub proof fn lemma_decimal_round_trip(d: Decimal)
    requires
        exact(d),
    ensures
        decimal_literal(decimal_text(d)) == Some(d),
        decimal_text(d).len() > 0,
        forall|k: int| 0 <= k < decimal_text(d).len() ==> (#[trigger] decimal_text(d)[k]) != 44,
        is_digit(decimal_text(d)[0]),
        is_digit(decimal_text(d).last()),
{
    let units = digits_of(d.units as nat);
    lemma_digits_of(d.units as nat);
    let s = decimal_text(d);
    if d.fraction_digits == 0 {
        lemma_point(s, 0, s.len() as int);
    } else {
        let tail = fixed_digits(d.fraction as nat, d.fraction_digits as nat);
        lemma_fixed_digits(d.fraction as nat, d.fraction_digits as nat);
        let p = units.len() as int;
        assert forall|k: int| 0 <= k < p implies s[k] != 46 by {
            assert(s[k] == units[k]);
        }
        assert(s[p] == 46);
        lemma_point(s, 0, p);
        assert(s.subrange(0, p) =~= units);
        assert(s.subrange(p + 1, s.len() as int) =~= tail);
        assert forall|k: int| 0 <= k < s.len() implies (#[trigger] s[k]) != 44 by {
            if k < p {
                assert(s[k] == units[k]);
            } else if k > p {
                assert(s[k] == tail[k - p - 1]);
            }
        }
        assert(s[0] == units[0]);
        assert(s.last() == tail.last());
    }
}

/// Reading a list does not depend on what stands before it.
pub proof fn lemma_delays_shift(before: Seq<u8>, t: Seq<u8>, start: int, i: int)
    requires
        0 <= start <= i <= t.len(),
    ensures
        delays_from(before + t, before.len() + start, before.len() + i) == delays_from(
            t,
            start,
            i,
        ),
    decreases t.len() - i,
{
    let s = before + t;
    let off = before.len() as int;
    if i >= t.len() {
        assert(s.subrange(off + start, s.len() as int) =~= t.subrange(start, t.len() as int));
    } else {
        assert(s[off + i] == t[i]);
        if t[i] == 44 {
            assert(s.subrange(off + start, off + i) =~= t.subrange(start, i));
            lemma_delays_shift(before, t, i + 1, i + 1);
        } else {
            lemma_delays_shift(before, t, start, i + 1);
        }
    }
}

/// Reading moves over what is no comma.
pub proof fn lemma_delays_scan(s: Seq<u8>, start: int, i: int, e: int)
    requires
        0 <= start <= i <= e <= s.len(),
        forall|k: int| i <= k < e ==> s[k] != 44,
    ensures
        delays_from(s, start, i) == delays_from(s, start, e),
    decreases e - i,
{
    if i < e {
        lemma_delays_scan(s, start, i + 1, e);
    }
}

/// The text of a list of exact decimals reads back as that list.
pub proof fn lemma_delays_round_trip(ds: Seq<Decimal>)
    requires
        ds.len() > 0,
        forall|k: int| 0 <= k < ds.len() ==> exact(#[trigger] ds[k]),
    ensures
        delays_from(delays_text(ds), 0, 0) == Some(ds),
        delays_text(ds).len() > 0,
        is_digit(delays_text(ds)[0]),
        is_digit(delays_text(ds).last()),
    decreases ds.len(),
{
    let s = delays_text(ds);
    let item = decimal_text(ds[0]);
    lemma_decimal_round_trip(ds[0]);
    let e = item.len() as int;
    if ds.len() == 1 {
        lemma_delays_scan(s, 0, 0, e);
        assert(s.subrange(0, e) =~= item);
        assert(seq![ds[0]] =~= ds);
    } else {
        let rest = ds.drop_first();
        assert forall|k: int| 0 <= k < rest.len() implies exact(#[trigger] rest[k]) by {
            assert(rest[k] == ds[k + 1]);
        }
        lemma_delays_round_trip(rest);
        let t = delays_text(rest);
        let before = item + seq![44u8];
        assert(s =~= before + t);
        assert forall|k: int| 0 <= k < e implies s[k] != 44 by {
            assert(s[k] == item[k]);
        }
        lemma_delays_scan(s, 0, 0, e);
        assert(s[e] == 44);
        assert(s.subrange(0, e) =~= item);
        lemma_delays_shift(before, t, 0, 0);
        assert(seq![ds[0]] + rest =~= ds);
        assert(s[0] == item[0]);
        assert(s.last() == t.last());
    }
}

/// A metadata line: the keyword, a space, `=`, a space, and the value.
pub open spec fn entry_line(key: Seq<u8>, value: Seq<u8>) -> Seq<u8> {
    key + seq![32u8, 61u8, 32u8] + value
}

/// The byte that spells a flag: `1` or `0`.
pub open spec fn flag_text(flag: bool) -> Seq<u8> {
    if flag {
        word_bytes("1"@)
    } else {
        word_bytes("0"@)
    }
}

/// The five lines that spell a state: its declaration with the name in
/// quotes (byte 34), then `dirs`, `frames`, `delay` and `movement`.
pub open spec fn state_text(st: IconStateView) -> Seq<Seq<u8>> {
    seq![
        entry_line(word_bytes("state"@), seq![34u8] + st.state_name + seq![34u8]),
        entry_line(word_bytes("dirs"@), digits_of(st.number_of_dirs as nat)),
        entry_line(word_bytes("frames"@), digits_of(st.number_of_frames as nat)),
        entry_line(word_bytes("delay"@), delays_text(st.delays)),
        entry_line(word_bytes("movement"@), flag_text(st.moving)),
    ]
}

/// Whether `key` is a word: not empty, and without blank space.
pub open spec fn plain(key: Seq<u8>) -> bool {
    key.len() > 0 && forall|k: int| 0 <= k < key.len() ==> !is_space(#[trigger] key[k])
}

/// A word ends where the first blank space after it stands.
pub proof fn lemma_word_run(s: Seq<u8>, i: int, e: int)
    requires
        0 <= i <= e <= s.len(),
        forall|k: int| i <= k < e ==> !is_space(#[trigger] s[k]),
        e < s.len() ==> is_space(s[e]),
    ensures
        skip_word(s, i) == e,
    decreases e - i,
{
    if i < e {
        lemma_word_run(s, i + 1, e);
    }
}

/// The tokenizer finds the keyword and the value of a line made of a word,
/// ` = `, and a value that neither starts nor ends with blank space.
pub proof fn lemma_entry_line(key: Seq<u8>, value: Seq<u8>)
    requires
        plain(key),
        value.len() > 0,
        !is_space(value[0]),
        !is_space(value.last()),
    ensures
        key_of(entry_line(key, value)) == key,
        value_of(entry_line(key, value)) == value,
{
    let s = entry_line(key, value);
    let e = key.len() as int;
    assert(s[0] == key[0]);
    assert(skip_spaces(s, 0) == 0);
    assert forall|k: int| 0 <= k < e implies !is_space(#[trigger] s[k]) by {
        assert(s[k] == key[k]);
    }
    assert(s[e] == 32 && s[e + 1] == 61 && s[e + 2] == 32);
    assert(s[e + 3] == value[0]);
    assert(s[s.len() - 1] == value.last());
    lemma_word_run(s, 0, e);
    assert(skip_spaces(s, e + 1) == e + 1);
    assert(skip_spaces(s, e) == e + 1);
    assert(skip_word(s, e + 2) == e + 2);
    assert(skip_word(s, e + 1) == e + 2);
    assert(skip_spaces(s, e + 3) == e + 3);
    assert(skip_spaces(s, e + 2) == e + 3);
    assert(trim_end(s, e + 3, s.len() as int) == s.len());
    assert(key_start_of(s) == 0);
    assert(key_end_of(s) == e);
    assert(value_start_of(s) == e + 3);
    assert(value_end_of(s) == s.len());
    assert(s.subrange(0, e) =~= key);
    assert(s.subrange(e + 3, s.len() as int) =~= value);
}

/// The keywords of a state block are words, and each is read as itself.
pub proof fn lemma_block_keywords()
    ensures
        plain(word_bytes("state"@)),
        plain(word_bytes("dirs"@)),
        plain(word_bytes("frames"@)),
        plain(word_bytes("delay"@)),
        plain(word_bytes("movement"@)),
        keyword_of(word_bytes("state"@)) == Keyword::State,
        keyword_of(word_bytes("dirs"@)) == Keyword::Dirs,
        keyword_of(word_bytes("frames"@)) == Keyword::Frames,
        keyword_of(word_bytes("delay"@)) == Keyword::Delay,
        keyword_of(word_bytes("movement"@)) == Keyword::Movement,
{
    reveal_strlit("#");
    reveal_strlit("Description");
    reveal_strlit("version");
    reveal_strlit("width");
    reveal_strlit("height");
    reveal_strlit("state");
    reveal_strlit("dirs");
    reveal_strlit("frames");
    reveal_strlit("delay");
    reveal_strlit("movement");
    assert(word_bytes("width"@)[0] == 119);
    assert(word_bytes("state"@)[0] == 115);
    assert(word_bytes("delay"@)[0] == 100);
    assert(word_bytes("height"@)[0] == 104);
    assert(word_bytes("frames"@)[0] == 102);
    assert(word_bytes("state"@) =~= seq![115u8, 116u8, 97u8, 116u8, 101u8]);
    assert(word_bytes("dirs"@) =~= seq![100u8, 105u8, 114u8, 115u8]);
    assert(word_bytes("frames"@) =~= seq![102u8, 114u8, 97u8, 109u8, 101u8, 115u8]);
    assert(word_bytes("delay"@) =~= seq![100u8, 101u8, 108u8, 97u8, 121u8]);
    assert(word_bytes("movement"@) =~= seq![
        109u8,
        111u8,
        118u8,
        101u8,
        109u8,
        101u8,
        110u8,
        116u8,
    ]);
}

/// The text of a flag reads back as the flag.
pub proof fn lemma_flag_round_trip(flag: bool)
    ensures
        flag_literal(flag_text(flag)) == Some(flag),
        flag_text(flag).len() == 1,
        !is_space(flag_text(flag)[0]),
{
    reveal_strlit("1");
    reveal_strlit("0");
    reveal_strlit("true");
    reveal_strlit("false");
    assert(word_bytes("1"@)[0] == 49);
    assert(word_bytes("0"@)[0] == 48);
}

/// Writing a complete state out as its five lines and parsing them gives
/// the same state back: the same name, counts, delays and flag.
pub proof fn lemma_state_round_trip(st: IconStateView)
    requires
        well_formed(st),
        forall|k: int| 0 <= k < st.delays.len() ==> exact(#[trigger] st.delays[k]),
    ensures
        block_at(state_text(st), 0) == Ok::<(IconStateView, int), (int, Fault)>((st, 5)),
{
    let lines = state_text(st);
    let name_value = seq![34u8] + st.state_name + seq![34u8];
    let dirs_value = digits_of(st.number_of_dirs as nat);
    let frames_value = digits_of(st.number_of_frames as nat);
    let delay_value = delays_text(st.delays);
    let flag_value = flag_text(st.moving);
    lemma_block_keywords();
    lemma_digits_of(st.number_of_dirs as nat);
    lemma_digits_of(st.number_of_frames as nat);
    lemma_delays_round_trip(st.delays);
    lemma_flag_round_trip(st.moving);
    assert(name_value[0] == 34 && name_value.last() == 34);
    assert(is_digit(dirs_value[0]) && is_digit(dirs_value.last()));
    assert(is_digit(frames_value[0]) && is_digit(frames_value.last()));
    assert(flag_value.last() == flag_value[0]);
    lemma_entry_line(word_bytes("state"@), name_value);
    lemma_entry_line(word_bytes("dirs"@), dirs_value);
    lemma_entry_line(word_bytes("frames"@), frames_value);
    lemma_entry_line(word_bytes("delay"@), delay_value);
    lemma_entry_line(word_bytes("movement"@), flag_value);
    assert(line_keyword(lines[0]) == Keyword::State);
    assert(line_keyword(lines[1]) == Keyword::Dirs);
    assert(line_keyword(lines[2]) == Keyword::Frames);
    assert(line_keyword(lines[3]) == Keyword::Delay);
    assert(line_keyword(lines[4]) == Keyword::Movement);
    assert(name_value.subrange(1, name_value.len() - 1) =~= st.state_name);
    assert(quoted_name(name_value) == Some(st.state_name));
    let s0 = fresh(st.state_name);
    assert(opened(lines[0]) == Ok::<IconStateView, Fault>(s0));
    let s1 = IconStateView { number_of_dirs: st.number_of_dirs, ..s0 };
    let s2 = IconStateView { number_of_frames: st.number_of_frames, ..s1 };
    let s3 = IconStateView { delays: st.delays, ..s2 };
    let s4 = IconStateView { moving: st.moving, ..s3 };
    assert(with_line(s0, lines[1]) == Ok::<IconStateView, Fault>(s1));
    assert(with_line(s1, lines[2]) == Ok::<IconStateView, Fault>(s2));
    assert(with_line(s2, lines[3]) == Ok::<IconStateView, Fault>(s3));
    assert(with_line(s3, lines[4]) == Ok::<IconStateView, Fault>(s4));
    assert(s4 == st);
    lemma_settled_twice(st);
    assert(block_from(s4, lines, 5) == Ok::<(IconStateView, int), (int, Fault)>((st, 5)));
    assert(block_from(s3, lines, 4) == block_from(s4, lines, 5));
    assert(block_from(s2, lines, 3) == block_from(s3, lines, 4));
    assert(block_from(s1, lines, 2) == block_from(s2, lines, 3));
    assert(block_from(s0, lines, 1) == block_from(s1, lines, 2));
}

/// Every delay that is read from a list is exact.
pub proof fn lemma_delays_exact(s: Seq<u8>, start: int, i: int)
    requires
        delays_from(s, start, i) is Some,
    ensures
        all_exact(delays_from(s, start, i).unwrap()),
    decreases s.len() - i,
{
    if i < 0 || i >= s.len() {
        lemma_literal_is_exact(s.subrange(start, s.len() as int));
    } else if s[i] == 44 {
        lemma_literal_is_exact(s.subrange(start, i));
        lemma_delays_exact(s, i + 1, i + 1);
        let d = decimal_literal(s.subrange(start, i)).unwrap();
        let rest = delays_from(s, i + 1, i + 1).unwrap();
        let all = seq![d] + rest;
        assert forall|k: int| 0 <= k < all.len() implies exact(#[trigger] all[k]) by {
            if k > 0 {
                assert(all[k] == rest[k - 1]);
            }
        }
    } else {
        lemma_delays_exact(s, start, i + 1);
    }
}

/// A block that starts sound ends in a complete state.
pub proof fn lemma_block_well_formed(st: IconStateView, lines: Seq<Seq<u8>>, i: int)
    requires
        sound(st),
        block_from(st, lines, i) is Ok,
    ensures
        well_formed((block_from(st, lines, i)->Ok_0).0),
    decreases lines.len() - i,
{
    if i < 0 || i >= lines.len() || line_keyword(lines[i]) == Keyword::State {
        let closed = settled(st);
        assert forall|k: int| 0 <= k < closed.delays.len() implies exact(
            #[trigger] closed.delays[k],
        ) by {
            if k < st.delays.len() {
                assert(exact(st.delays[k]));
            } else if st.delays.len() > 0 {
                assert(exact(st.delays[st.delays.len() - 1]));
            }
        }
    } else {
        let next = (with_line(st, lines[i])->Ok_0);
        if line_keyword(lines[i]) == Keyword::Delay {
            lemma_delays_exact(value_of(lines[i]), 0, 0);
        }
        lemma_block_well_formed(next, lines, i + 1);
    }
}

/// Every state read from line `i` on is complete.
pub proof fn lemma_states_well_formed(lines: Seq<Seq<u8>>, i: int)
    requires
        states_from(lines, i) is Ok,
    ensures
        forall|k: int|
            0 <= k < (states_from(lines, i)->Ok_0).len() ==> well_formed(
                #[trigger] (states_from(lines, i)->Ok_0)[k],
            ),
    decreases lines.len() - i,
{
    if i < 0 || i >= lines.len() {
    } else if line_keyword(lines[i]) != Keyword::State {
        lemma_states_well_formed(lines, i + 1);
    } else {
        lemma_states_well_formed(lines, i + 1);
        let opening = (opened(lines[i])->Ok_0);
        lemma_block_well_formed(opening, lines, i + 1);
        let state = (block_at(lines, i)->Ok_0).0;
        let rest = (states_from(lines, i + 1)->Ok_0);
        let all = (states_from(lines, i)->Ok_0);
        assert(all == seq![state] + rest);
        assert forall|k: int| 0 <= k < all.len() implies well_formed(#[trigger] all[k]) by {
            if k > 0 {
                assert(all[k] == rest[k - 1]);
            }
        }
    }
}

/// Every state of a document is complete: 1, 4 or 8 directions, at least
/// one frame, and one exact delay for each frame.
pub proof fn lemma_document_well_formed(lines: Seq<Seq<u8>>)
    requires
        document(lines) is Ok,
    ensures
        forall|k: int|
            0 <= k < (document(lines)->Ok_0).icon_states.len() ==> well_formed(
                #[trigger] (document(lines)->Ok_0).icon_states[k],
            ),
{
    let first = (header_from(blank_header(), lines, 0)->Ok_0).1;
    lemma_states_well_formed(lines, first);
}

/// Every state of a document, written out as its five lines and parsed
/// again, comes back as it was.
pub proof fn lemma_document_round_trip(lines: Seq<Seq<u8>>, k: int)
    requires
        document(lines) is Ok,
        0 <= k < (document(lines)->Ok_0).icon_states.len(),
    ensures
        block_at(state_text((document(lines)->Ok_0).icon_states[k]), 0) == Ok::<
            (IconStateView, int),
            (int, Fault),
        >(((document(lines)->Ok_0).icon_states[k], 5)),
{
    lemma_document_well_formed(lines);
    lemma_state_round_trip((document(lines)->Ok_0).icon_states[k]);
}

/// One more delay at the end of a list adds a comma and its text.
pub proof fn lemma_delays_text_push(ds: Seq<Decimal>, d: Decimal)
    requires
        ds.len() > 0,
    ensures
        delays_text(ds.push(d)) == delays_text(ds) + seq![44u8] + decimal_text(d),
    decreases ds.len(),
{
    let longer = ds.push(d);
    assert(longer[0] == ds[0]);
    if ds.len() == 1 {
        assert(longer.drop_first() =~= seq![d]);
        assert(delays_text(seq![d]) == decimal_text(d));
    } else {
        let rest = ds.drop_first();
        assert(longer.drop_first() =~= rest.push(d));
        lemma_delays_text_push(rest, d);
        assert(delays_text(longer) =~= delays_text(ds) + seq![44u8] + decimal_text(d));
    }
}

/// Appends the bytes of `s`.
pub fn push_all(out: &mut Vec<u8>, s: &[u8])
    ensures
        final(out)@ == old(out)@ + s@,
{
    let mut i: usize = 0;
    while i < s.len()
        invariant
            i <= s@.len(),
            out@ == old(out)@ + s@.subrange(0, i as int),
        decreases s@.len() - i,
    {
        out.push(s[i]);
        proof {
            assert(out@ =~= old(out)@ + s@.subrange(0, i + 1));
        }
        i = i + 1;
    }
    proof {
        assert(s@.subrange(0, s@.len() as int) =~= s@);
    }
}

/// Appends an ASCII word.
pub fn push_word(out: &mut Vec<u8>, word: &str)
    requires
        is_ascii(word),
    ensures
        final(out)@ == old(out)@ + word_bytes(word@),
{
    broadcast use is_ascii_spec_bytes;

    let bytes = word.as_bytes();
    assert(bytes@ =~= word_bytes(word@));
    push_all(out, bytes);
}

/// Appends the digits of `n`.
pub fn push_digits(out: &mut Vec<u8>, n: u32)
    ensures
        final(out)@ == old(out)@ + digits_of(n as nat),
    decreases n,
{
    if n >= 10 {
        push_digits(out, n / 10);
    }
    let digit: u8 = 48 + (n % 10) as u8;
    out.push(digit);
    proof {
        if n >= 10 {
            assert(final(out)@ =~= old(out)@ + digits_of((n / 10) as nat).push(digit));
        } else {
            assert(final(out)@ =~= old(out)@ + seq![digit]);
        }
    }
}

/// Appends the last `width` digits of `n`, with leading zeros.
pub fn push_fixed_digits(out: &mut Vec<u8>, n: u32, width: usize)
    ensures
        final(out)@ == old(out)@ + fixed_digits(n as nat, width as nat),
{
    let mut buffer: Vec<u8> = Vec::new();
    while buffer.len() < width
        invariant
            buffer@.len() <= width,
        decreases width - buffer@.len(),
    {
        buffer.push(48);
    }
    let mut rest: u32 = n;
    let mut k: usize = 0;
    while k < width
        invariant
            k <= width,
            buffer@.len() == width,
            fixed_digits(n as nat, width as nat) == fixed_digits(rest as nat, (width - k) as nat)
                + buffer@.subrange(width - k, width as int),
        decreases width - k,
    {
        let digit: u8 = 48 + (rest % 10) as u8;
        let ghost tail = buffer@.subrange(width - k, width as int);
        let ghost head = fixed_digits((rest / 10) as nat, (width - k - 1) as nat);
        buffer.set(width - k - 1, digit);
        proof {
            assert(buffer@.subrange(width - k - 1, width as int) =~= seq![digit] + tail);
            assert(head.push(digit) + tail =~= head + (seq![digit] + tail));
        }
        rest = rest / 10;
        k = k + 1;
    }
    proof {
        assert(fixed_digits(rest as nat, 0) + buffer@.subrange(0, width as int) =~= buffer@);
    }
    push_all(out, buffer.as_slice());
}

/// Appends the text of a decimal.
pub fn push_decimal(out: &mut Vec<u8>, d: Decimal)
    ensures
        final(out)@ == old(out)@ + decimal_text(d),
{
    let ghost before = out@;
    push_digits(out, d.units);
    if d.fraction_digits > 0 {
        out.push(46);
        push_fixed_digits(out, d.fraction, d.fraction_digits);
        proof {
            assert(out@ =~= before + decimal_text(d));
        }
    }
}

/// Appends the text of a list of delays.
pub fn push_delays(out: &mut Vec<u8>, delays: &Vec<Decimal>)
    ensures
        final(out)@ == old(out)@ + delays_text(delays@),
{
    let ghost before = out@;
    let n: usize = delays.len();
    let mut k: usize = 0;
    proof {
        assert(before + delays_text(delays@.subrange(0, 0)) =~= before);
    }
    while k < n
        invariant
            k <= n,
            n == delays@.len(),
            out@ == before + delays_text(delays@.subrange(0, k as int)),
        decreases n - k,
    {
        let ghost done = delays@.subrange(0, k as int);
        if k > 0 {
            out.push(44);
        }
        push_decimal(out, delays[k]);
        proof {
            let d = delays@[k as int];
            assert(delays@.subrange(0, k + 1) =~= done.push(d));
            if k > 0 {
                lemma_delays_text_push(done, d);
                assert(out@ =~= before + (delays_text(done) + seq![44u8] + decimal_text(d)));
            } else {
                assert(done.push(d) =~= seq![d]);
                assert(delays_text(done) =~= Seq::<u8>::empty());
                assert(out@ =~= before + decimal_text(d));
            }
        }
        k = k + 1;
    }
    proof {
        assert(delays@.subrange(0, n as int) =~= delays@);
    }
}

/// Starts a line with its keyword and ` = `.
pub fn begin_line(key: &str) -> (r: Vec<u8>)
    requires
        is_ascii(key),
    ensures
        r@ == word_bytes(key@) + seq![32u8, 61u8, 32u8],
{
    let mut line: Vec<u8> = Vec::new();
    push_word(&mut line, key);
    line.push(32);
    line.push(61);
    line.push(32);
    proof {
        assert(line@ =~= word_bytes(key@) + seq![32u8, 61u8, 32u8]);
    }
    line
}

/// Writes a state out as five lines: its declaration, then `dirs`,
/// `frames`, `delay` and `movement`. For a complete state the parser reads
/// these lines back as the same state.
pub fn state_lines(state: &IconState) -> (r: Vec<Vec<u8>>)
    ensures
        line_views(r@) == state_text(state@),
{
    proof {
        reveal_strlit("state");
        reveal_strlit("dirs");
        reveal_strlit("frames");
        reveal_strlit("delay");
        reveal_strlit("movement");
        reveal_strlit("1");
        reveal_strlit("0");
    }
    let mut declaration = begin_line("state");
    declaration.push(34);
    push_all(&mut declaration, state.state_name().as_slice());
    declaration.push(34);
    let mut dirs = begin_line("dirs");
    push_digits(&mut dirs, state.number_of_dirs());
    let mut frames = begin_line("frames");
    push_digits(&mut frames, state.number_of_frames());
    let mut delay = begin_line("delay");
    push_delays(&mut delay, state.delays());
    let mut movement = begin_line("movement");
    if state.moving() {
        push_word(&mut movement, "1");
    } else {
        push_word(&mut movement, "0");
    }
    proof {
        let st = state@;
        assert(declaration@ =~= entry_line(
            word_bytes("state"@),
            seq![34u8] + st.state_name + seq![34u8],
        ));
    }
    let mut lines: Vec<Vec<u8>> = Vec::new();
    lines.push(declaration);
    lines.push(dirs);
    lines.push(frames);
    lines.push(delay);
    lines.push(movement);
    proof {
        assert(line_views(lines@) =~= state_text(state@));
    }
    lines
}

} // verus!
