//! Minimal, line-oriented output of live events.
use crate::text;
use vstd::prelude::*;
use vstd::utf8::*;

verus! {

broadcast use vstd::string::group_string_axioms;

/// What a line shows of one event.
pub struct EventRecord {
    /// Date and time as `YYYY/MM/DD hh:mm:ss.fffffff`.
    pub date_precise: String,
    pub operation_name: String,
    pub subject_pid: u32,
    pub subject_parent_pid: Option<u32>,
    pub subject_image_path: Option<String>,
    pub working_directory: Option<String>,
    pub subject_command_line: Option<String>,
}

/// Whether `c` is one of the control characters (Unicode category Cc), among
/// them tab, carriage return and line feed.
pub open spec fn is_control(c: char) -> bool {
    c as u32 <= 0x1f || (0x7f <= c as u32 && c as u32 <= 0x9f)
}

/// A space in place of a control character; any other character is itself.
pub open spec fn flattened(c: char) -> char {
    if is_control(c) {
        ' '
    } else {
        c
    }
}

/// A text with its control characters flattened.
pub open spec fn sanitized(s: Seq<char>) -> Seq<char> {
    s.map_values(|c: char| flattened(c))
}

/// Whether no control character occurs in `s`.
pub open spec fn is_flat(s: Seq<char>) -> bool {
    forall|i: int| 0 <= i < s.len() ==> !is_control(#[trigger] s[i])
}

/// Flattens control characters to spaces, so that a captured string can
/// neither end a line nor start a new field.
pub fn sanitize_field(value: &str) -> (r: String)
    ensures
        r@ == sanitized(value@),
{
    let mut out = String::new();
    for c in it: value.chars()
        invariant
            it.seq() == value@,
            out@ == sanitized(value@.take(it.index() as int)),
    {
        let u: u32 = c as u32;
        if u <= 0x1f || (0x7f <= u && u <= 0x9f) {
            out.push(' ');
        } else {
            out.push(c);
        }
        assert(sanitized(value@.take(it.index() + 1)) =~= sanitized(
            value@.take(it.index() as int),
        ).push(flattened(c)));
    }
    assert(value@.take(value@.len() as int) == value@);
    out
}

/// A date with dashes in place of slashes.
pub open spec fn dashed(s: Seq<char>) -> Seq<char> {
    s.map_values(|c: char| if c == '/' { '-' } else { c })
}

/// Where the last dot of `s` stands, or -1 where there is none.
pub open spec fn last_dot(s: Seq<char>) -> int
    decreases s.len(),
{
    if s.len() == 0 {
        -1
    } else if s.last() == '.' {
        s.len() - 1
    } else {
        last_dot(s.drop_last())
    }
}

/// How many leading characters of `s` fit in `room` bytes of UTF-8.
pub open spec fn fitting(s: Seq<char>, room: int) -> int
    decreases s.len(),
{
    if s.len() == 0 || text::utf8_width(s[0]) > room {
        0
    } else {
        1 + fitting(s.drop_first(), room - text::utf8_width(s[0]))
    }
}

/// What follows the last dot of `s`; the empty text where there is no dot.
pub open spec fn fraction(s: Seq<char>) -> Seq<char> {
    if last_dot(s) < 0 {
        seq![]
    } else {
        s.skip(last_dot(s) + 1)
    }
}

/// How many characters of `s` stay when its fraction is cut to three bytes.
pub open spec fn millis_len(s: Seq<char>) -> int {
    if last_dot(s) < 0 {
        s.len() as int
    } else {
        last_dot(s) + 1 + fitting(fraction(s), 3)
    }
}

/// A precise timestamp with dashes in its date and at most three bytes, the
/// milliseconds, behind its last dot.
pub open spec fn millis(precise: Seq<char>) -> Seq<char> {
    dashed(precise).take(millis_len(precise))
}

/// Whether the fraction of `precise` can be cut to three bytes: it is no longer
/// than that, or its third byte ends a character.
pub open spec fn cuts_at_millis(precise: Seq<char>) -> bool {
    let f = fraction(precise);
    fitting(f, 3) == f.len() || encode_utf8(f.take(fitting(f, 3))).len() == 3
}

proof fn lemma_last_dot(s: Seq<char>)
    ensures
        -1 <= last_dot(s) < s.len(),
        last_dot(s) >= 0 ==> s[last_dot(s)] == '.',
        forall|i: int| last_dot(s) < i < s.len() ==> s[i] != '.',
    decreases s.len(),
{
    if s.len() > 0 && s.last() != '.' {
        lemma_last_dot(s.drop_last());
        assert forall|i: int| last_dot(s) < i < s.len() implies s[i] != '.' by {
            if i < s.len() - 1 {
                assert(s.drop_last()[i] == s[i]);
            }
        }
    }
}

proof fn lemma_last_dot_is(s: Seq<char>, d: int)
    requires
        -1 <= d < s.len(),
        d >= 0 ==> s[d] == '.',
        forall|i: int| d < i < s.len() ==> s[i] != '.',
    ensures
        last_dot(s) == d,
{
    lemma_last_dot(s);
}

proof fn lemma_fitting(s: Seq<char>, room: int)
    ensures
        0 <= fitting(s, room) <= s.len(),
        room >= 0 ==> encode_utf8(s.take(fitting(s, room))).len() <= room,
    decreases s.len(),
{
    let k = fitting(s, room);
    if s.len() == 0 || text::utf8_width(s[0]) > room {
        assert(s.take(0).len() == 0);
    } else {
        lemma_fitting(s.drop_first(), room - text::utf8_width(s[0]));
        assert(s.take(k)[0] == s[0]);
        assert(s.take(k).drop_first() == s.drop_first().take(k - 1));
    }
}

/// The last dot of a text, or `None`.
fn find_last_dot(s: &Vec<char>) -> (r: Option<usize>)
    ensures
        match r {
            Some(d) => d == last_dot(s@) && d < s.len(),
            None => last_dot(s@) < 0,
        },
{
    let mut i: usize = s.len();
    while i > 0
        invariant
            i <= s@.len(),
            forall|j: int| i <= j < s@.len() ==> s@[j] != '.',
        decreases i,
    {
        i -= 1;
        if s[i] == '.' {
            proof {
                lemma_last_dot_is(s@, i as int);
            }
            return Some(i);
        }
    }
    proof {
        lemma_last_dot_is(s@, -1);
    }
    None
}

/// Where `s` is to be cut to keep `room` bytes from `start` on, and the room
/// that is left over.
fn fit_from(s: &Vec<char>, start: usize, room: usize) -> (r: (usize, usize))
    requires
        start <= s@.len(),
    ensures
        start <= r.0 <= s@.len(),
        r.0 == start + fitting(s@.skip(start as int), room as int),
        encode_utf8(s@.subrange(start as int, r.0 as int)).len() + r.1 == room,
{
    let mut i: usize = start;
    let mut left: usize = room;
    proof {
        assert(s@.subrange(start as int, start as int).len() == 0);
    }
    while i < s.len()
        invariant
            start <= i <= s@.len(),
            start + fitting(s@.skip(start as int), room as int) == i + fitting(
                s@.skip(i as int),
                left as int,
            ),
            encode_utf8(s@.subrange(start as int, i as int)).len() + left == room,
        decreases s@.len() - i,
    {
        let w = text::char_width(s[i]);
        if w > left {
            return (i, left);
        }
        proof {
            let one: Seq<char> = seq![s@[i as int]];
            assert(s@.skip(i as int).drop_first() == s@.skip(i + 1));
            assert(s@.subrange(start as int, i + 1) == s@.subrange(start as int, i as int) + one);
            text::lemma_encode_concat(s@.subrange(start as int, i as int), one);
            assert(one.drop_first().len() == 0);
            assert(encode_utf8(one) == encode_scalar(s@[i as int] as u32) + encode_utf8(
                one.drop_first(),
            ));
        }
        left -= w;
        i += 1;
    }
    (i, left)
}

/// Whether [`timestamp_millis`] can cut `precise`: false exactly where the cut
/// would fall inside a character.
pub fn has_millis_boundary(precise: &str) -> (r: bool)
    ensures
        r == cuts_at_millis(precise@),
{
    let s = text::chars_of(precise);
    match find_last_dot(&s) {
        None => {
            assert(fraction(precise@).len() == 0);
            true
        },
        Some(d) => {
            proof {
                lemma_last_dot(precise@);
            }
            let (end, left) = fit_from(&s, d + 1, 3);
            proof {
                let f = fraction(precise@);
                assert(f.take(fitting(f, 3)) == precise@.subrange(d + 1, end as int));
            }
            end == s.len() || left == 0
        },
    }
}

/// Turns a precise timestamp into an ISO-like one of millisecond precision:
/// slashes become dashes, and the fraction behind the last dot keeps three
/// bytes. Text without a dot keeps its length.
pub fn timestamp_millis(precise: &str) -> (r: String)
    requires
        cuts_at_millis(precise@),
    ensures
        r@ == millis(precise@),
{
    let s = text::chars_of(precise);
    proof {
        lemma_last_dot(precise@);
    }
    let end: usize = match find_last_dot(&s) {
        None => s.len(),
        Some(d) => fit_from(&s, d + 1, 3).0,
    };
    assert(end == millis_len(precise@));
    let mut out = String::new();
    let mut i: usize = 0;
    while i < end
        invariant
            s@ == precise@,
            i <= end <= s@.len(),
            out@ == dashed(precise@).take(i as int),
        decreases end - i,
    {
        if s[i] == '/' {
            out.push('-');
        } else {
            out.push(s[i]);
        }
        assert(dashed(precise@).take(i + 1) =~= dashed(precise@).take(i as int).push(
            dashed(precise@)[i as int],
        ));
        i += 1;
    }
    out
}

/// The text of an optional string; empty where there is none.
pub open spec fn text_or_empty(s: Option<String>) -> Seq<char> {
    match s {
        Some(t) => t@,
        None => seq![],
    }
}

/// The seven fields of an event's line: timestamp, operation, pid, parent pid
/// (0 where it is not known), executable, working directory, command line.
pub open spec fn event_fields(ev: EventRecord) -> Seq<Seq<char>> {
    let parent: u32 = match ev.subject_parent_pid {
        Some(p) => p,
        None => 0,
    };
    seq![
        millis(ev.date_precise@),
        sanitized(ev.operation_name@),
        text::decimal(ev.subject_pid as nat),
        text::decimal(parent as nat),
        sanitized(text_or_empty(ev.subject_image_path)),
        sanitized(text_or_empty(ev.working_directory)),
        sanitized(text_or_empty(ev.subject_command_line)),
    ]
}

/// The line of an event: its fields with tabs between them.
pub open spec fn event_line(ev: EventRecord) -> Seq<char> {
    text::join_on(event_fields(ev), '\t')
}

fn sanitize_optional(value: &Option<String>) -> (r: String)
    ensures
        r@ == sanitized(text_or_empty(*value)),
{
    match value {
        Some(s) => sanitize_field(s.as_str()),
        None => {
            let r = String::new();
            assert(r@ =~= sanitized(text_or_empty(*value)));
            r
        },
    }
}

proof fn lemma_seven_fields(f: Seq<Seq<char>>)
    requires
        f.len() == 7,
    ensures
        text::join_on(f, '\t') == f[0].push('\t') + f[1].push('\t') + f[2].push('\t')
            + f[3].push('\t') + f[4].push('\t') + f[5].push('\t') + f[6],
{
    assert(text::join_on(f.take(1), '\t') == f[0]);
    text::lemma_join_push(f.take(1), f[1], '\t');
    text::lemma_join_push(f.take(2), f[2], '\t');
    text::lemma_join_push(f.take(3), f[3], '\t');
    text::lemma_join_push(f.take(4), f[4], '\t');
    text::lemma_join_push(f.take(5), f[5], '\t');
    text::lemma_join_push(f.take(6), f[6], '\t');
    assert(f.take(2) == f.take(1).push(f[1]));
    assert(f.take(3) == f.take(2).push(f[2]));
    assert(f.take(4) == f.take(3).push(f[3]));
    assert(f.take(5) == f.take(4).push(f[4]));
    assert(f.take(6) == f.take(5).push(f[5]));
    assert(f == f.take(6).push(f[6]));
    assert(text::join_on(f, '\t') =~= f[0].push('\t') + f[1].push('\t') + f[2].push('\t')
        + f[3].push('\t') + f[4].push('\t') + f[5].push('\t') + f[6]);
}

/// Formats one event as tab-separated fields: timestamp, operation, pid, parent
/// pid, executable, working directory, command line. Tabs keep paths and command
/// lines with spaces apart, and control characters inside captured strings are
/// flattened, so that every event stays on one line.
pub fn format_event(ev: &EventRecord) -> (r: String)
    requires
        cuts_at_millis(ev.date_precise@),
    ensures
        r@ == event_line(*ev),
{
    let ghost f = event_fields(*ev);
    let mut out = timestamp_millis(ev.date_precise.as_str());
    out.push('\t');
    out.append(sanitize_field(ev.operation_name.as_str()).as_str());
    out.push('\t');
    text::push_decimal(&mut out, ev.subject_pid);
    out.push('\t');
    let parent: u32 = match ev.subject_parent_pid {
        Some(p) => p,
        None => 0,
    };
    text::push_decimal(&mut out, parent);
    out.push('\t');
    out.append(sanitize_optional(&ev.subject_image_path).as_str());
    out.push('\t');
    out.append(sanitize_optional(&ev.working_directory).as_str());
    out.push('\t');
    out.append(sanitize_optional(&ev.subject_command_line).as_str());
    proof {
        lemma_seven_fields(f);
    }
    out
}

/// A line as it goes out: its text and a line feed, in UTF-8.
pub open spec fn line_bytes(line: Seq<char>) -> Seq<u8> {
    encode_utf8(line).push(10u8)
}

/// `std::io::Error`, carried as an opaque value.
#[verifier::external_type_specification]
#[verifier::external_body]
pub struct ExIoError(std::io::Error);

/// Writes one already formatted line and its terminating line feed at the end of
/// `out`. A buffer in memory takes every line and needs no flushing.
pub fn write_line(out: &mut Vec<u8>, line: &str) -> (r: std::io::Result<()>)
    ensures
        r is Ok,
        final(out)@ == old(out)@ + line_bytes(line@),
        final(out)@ == old(out)@ + encode_utf8(line@) + seq![10u8],
{
    let bytes = line.as_bytes();
    let mut i: usize = 0;
    while i < bytes.len()
        invariant
            bytes@ == encode_utf8(line@),
            i <= bytes@.len(),
            out@ == old(out)@ + encode_utf8(line@).take(i as int),
        decreases bytes@.len() - i,
    {
        out.push(bytes[i]);
        assert(encode_utf8(line@).take(i + 1) == encode_utf8(line@).take(i as int).push(
            bytes@[i as int],
        ));
        i += 1;
    }
    assert(encode_utf8(line@).take(i as int) == encode_utf8(line@));
    out.push(10);
    assert(out@ =~= old(out)@ + encode_utf8(line@) + seq![10u8]);
    Ok(())
}

/// What comes after a line was written out, or was not.
pub enum AfterWrite<E> {
    /// Flush the output, and report how that went.
    Flush,
    /// Report this error, and leave the output alone.
    Fail(E),
}

/// What follows from how writing a line out went.
pub open spec fn write_result<E>(written: Result<(), E>) -> AfterWrite<E> {
    match written {
        Ok(_) => AfterWrite::Flush,
        Err(e) => AfterWrite::Fail(e),
    }
}

/// The output is flushed exactly if the line was written, and an error of writing is
/// passed on as it is.
pub proof fn written_lines_are_flushed<E>(written: Result<(), E>, e: E)
    ensures
        write_result(written) == AfterWrite::<E>::Flush <==> written is Ok,
        write_result(written) == AfterWrite::Fail(e) <==> written == Err::<(), E>(e),
{
}

/// A line that was written out is flushed at once, which keeps redirected output as
/// live as a console; one that could not be written is not.
pub fn after_write<E>(written: Result<(), E>) -> (r: AfterWrite<E>)
    ensures
        r == match written {
            Ok(_) => AfterWrite::Flush,
            Err(e) => AfterWrite::Fail(e),
        },
        r == write_result(written),
{
    match written {
        Ok(_) => AfterWrite::Flush,
        Err(e) => AfterWrite::Fail(e),
    }
}

/// A flattened text holds no control character and is as long as the text it
/// came from; text without control characters stays as it is, so flattening
/// twice does no more than flattening once.
pub proof fn sanitizing_flattens(s: Seq<char>)
    ensures
        is_flat(sanitized(s)),
        sanitized(s).len() == s.len(),
        is_flat(s) ==> sanitized(s) == s,
        sanitized(sanitized(s)) == sanitized(s),
{
    assert(is_flat(s) ==> sanitized(s) =~= s);
    assert(sanitized(sanitized(s)) =~= sanitized(s));
}

/// Flattening works character by character: those up to 31 and those from 127 to 159
/// become spaces, and every other one stays as it is, wherever it stands.
pub proof fn sanitizing_replaces_control_characters_only(s: Seq<char>, i: int)
    requires
        0 <= i < s.len(),
    ensures
        sanitized(s).len() == s.len(),
        s[i] as u32 <= 31 || 127 <= s[i] as u32 <= 159 ==> sanitized(s)[i] == ' ',
        32 <= s[i] as u32 <= 126 || 160 <= s[i] as u32 ==> sanitized(s)[i] == s[i],
        is_control(s[i]) <==> s[i] as u32 <= 31 || 127 <= s[i] as u32 <= 159,
{
}

/// Texts are flattened part by part: what stands before or after makes no difference.
pub proof fn sanitizing_works_part_by_part(a: Seq<char>, b: Seq<char>)
    ensures
        sanitized(a + b) == sanitized(a) + sanitized(b),
{
    assert(sanitized(a + b) =~= sanitized(a) + sanitized(b));
}

proof fn lemma_flat_holds_no_control(s: Seq<char>, c: char)
    requires
        is_flat(s),
        is_control(c),
    ensures
        !s.contains(c),
{
}

proof fn lemma_decimal_is_flat(n: nat)
    ensures
        is_flat(text::decimal(n)),
    decreases n,
{
    if n >= 10 {
        lemma_decimal_is_flat(n / 10);
    }
}

proof fn lemma_millis_holds_no_new_control(precise: Seq<char>, c: char)
    requires
        is_control(c),
        !precise.contains(c),
    ensures
        !millis(precise).contains(c),
{
    lemma_last_dot(precise);
    lemma_fitting(fraction(precise), 3);
    let m = millis(precise);
    if m.contains(c) {
        let i = choose|i: int| 0 <= i < m.len() && m[i] == c;
        assert(m[i] == dashed(precise)[i]);
        assert(precise[i] == c);
    }
}

proof fn lemma_fields_hold_no_new_control(ev: EventRecord, c: char)
    requires
        is_control(c),
        !ev.date_precise@.contains(c),
    ensures
        forall|i: int| 0 <= i < 7 ==> !(#[trigger] event_fields(ev)[i]).contains(c),
{
    let f = event_fields(ev);
    lemma_millis_holds_no_new_control(ev.date_precise@, c);
    assert forall|n: nat| !(#[trigger] text::decimal(n)).contains(c) by {
        lemma_decimal_is_flat(n);
        lemma_flat_holds_no_control(text::decimal(n), c);
    }
    assert forall|s: Seq<char>| !(#[trigger] sanitized(s)).contains(c) by {
        sanitizing_flattens(s);
        lemma_flat_holds_no_control(sanitized(s), c);
    }
    assert forall|i: int| 0 <= i < 7 implies !(#[trigger] f[i]).contains(c) by {
        assert(i == 0 || i == 1 || i == 2 || i == 3 || i == 4 || i == 5 || i == 6);
    }
}

/// The line of an event, written out: the seven fields in this order, one tab between
/// neighbours and nothing before or behind. An unknown parent is 0, and an absent
/// string is an empty field.
pub proof fn event_line_written_out(ev: EventRecord)
    ensures
        event_line(ev) == millis(ev.date_precise@) + seq!['\t'] + sanitized(ev.operation_name@)
            + seq!['\t'] + text::decimal(ev.subject_pid as nat) + seq!['\t'] + (
        match ev.subject_parent_pid {
            Some(p) => text::decimal(p as nat),
            None => seq!['0'],
        }) + seq!['\t'] + (match ev.subject_image_path {
            Some(s) => sanitized(s@),
            None => Seq::<char>::empty(),
        }) + seq!['\t'] + (match ev.working_directory {
            Some(s) => sanitized(s@),
            None => Seq::<char>::empty(),
        }) + seq!['\t'] + (match ev.subject_command_line {
            Some(s) => sanitized(s@),
            None => Seq::<char>::empty(),
        }),
{
    let f = event_fields(ev);
    lemma_seven_fields(f);
    assert(text::decimal(0) =~= seq!['0']);
    assert(sanitized(Seq::<char>::empty()) =~= Seq::<char>::empty());
    assert(event_line(ev) =~= f[0] + seq!['\t'] + f[1] + seq!['\t'] + f[2] + seq!['\t'] + f[3]
        + seq!['\t'] + f[4] + seq!['\t'] + f[5] + seq!['\t'] + f[6]);
}

/// Pid and parent pid can be read from the line: the third and fourth field are digits
/// whose value they are, without leading zeros.
pub proof fn pids_read_back_from_the_line(ev: EventRecord)
    requires
        !ev.date_precise@.contains('\t'),
    ensures
        ({
            let fields = text::split_on(event_line(ev), '\t');
            &&& fields.len() == 7
            &&& forall|i: int|
                0 <= i < fields[2].len() ==> 48 <= (#[trigger] fields[2][i]) as u32 <= 57
            &&& forall|i: int|
                0 <= i < fields[3].len() ==> 48 <= (#[trigger] fields[3][i]) as u32 <= 57
            &&& text::digits_value(fields[2]) == ev.subject_pid
            &&& fields[2].len() > 1 ==> fields[2][0] != '0'
            &&& ev.subject_parent_pid matches Some(p) ==> text::digits_value(fields[3]) == p
            &&& ev.subject_parent_pid is None ==> text::digits_value(fields[3]) == 0
            &&& fields[3].len() > 1 ==> fields[3][0] != '0'
        }),
{
    event_line_splits_into_its_fields(ev);
    text::decimal_reads_back(ev.subject_pid as nat);
    match ev.subject_parent_pid {
        Some(p) => {
            text::decimal_reads_back(p as nat);
        },
        None => {
            text::decimal_reads_back(0);
        },
    }
}

/// Events whose lines are the same have the same pids and, up to flattening, the same
/// captured strings.
pub proof fn lines_tell_events_apart(a: EventRecord, b: EventRecord)
    requires
        event_line(a) == event_line(b),
        !a.date_precise@.contains('\t'),
        !b.date_precise@.contains('\t'),
    ensures
        a.subject_pid == b.subject_pid,
        millis(a.date_precise@) == millis(b.date_precise@),
        sanitized(a.operation_name@) == sanitized(b.operation_name@),
        sanitized(text_or_empty(a.subject_image_path)) == sanitized(
            text_or_empty(b.subject_image_path),
        ),
        sanitized(text_or_empty(a.working_directory)) == sanitized(
            text_or_empty(b.working_directory),
        ),
        sanitized(text_or_empty(a.subject_command_line)) == sanitized(
            text_or_empty(b.subject_command_line),
        ),
{
    pids_read_back_from_the_line(a);
    pids_read_back_from_the_line(b);
    event_line_splits_into_its_fields(a);
    event_line_splits_into_its_fields(b);
    let f = event_fields(a);
    let g = event_fields(b);
    assert(f[0] == g[0] && f[1] == g[1] && f[4] == g[4] && f[5] == g[5] && f[6] == g[6]);
}

/// Fields cannot run into each other: splitting the line of an event at its tabs
/// gives back its seven fields, whatever the captured strings hold. The date is
/// not flattened, so it must not hold a tab itself.
pub proof fn event_line_splits_into_its_fields(ev: EventRecord)
    requires
        !ev.date_precise@.contains('\t'),
    ensures
        text::split_on(event_line(ev), '\t') == event_fields(ev),
        event_fields(ev).len() == 7,
{
    lemma_fields_hold_no_new_control(ev, '\t');
    text::lemma_split_of_join(event_fields(ev), '\t');
}

/// Captured strings cannot break the line: a control character other than the
/// separating tab occurs in the line of an event only if the date holds it. In
/// particular no line feed or carriage return comes in through a field.
pub proof fn event_line_holds_no_control_but_tabs(ev: EventRecord, c: char)
    requires
        is_control(c),
        c != '\t',
        !ev.date_precise@.contains(c),
    ensures
        !event_line(ev).contains(c),
{
    lemma_fields_hold_no_new_control(ev, c);
    text::lemma_join_holds_only(event_fields(ev), '\t', c);
}

/// The bytes of several lines written one after the other.
pub open spec fn written(lines: Seq<Seq<char>>) -> Seq<u8>
    decreases lines.len(),
{
    if lines.len() == 0 {
        seq![]
    } else {
        written(lines.drop_last()) + line_bytes(lines.last())
    }
}

/// Each line goes out as its text in UTF-8 and one line feed, behind the lines before
/// it.
pub proof fn lines_go_out_one_after_the_other(lines: Seq<Seq<char>>, line: Seq<char>)
    ensures
        line_bytes(line) == encode_utf8(line) + seq![10u8],
        written(Seq::<Seq<char>>::empty()) == Seq::<u8>::empty(),
        written(lines.push(line)) == written(lines) + encode_utf8(line) + seq![10u8],
{
    assert(lines.push(line).drop_last() == lines);
    assert(line_bytes(line) =~= encode_utf8(line) + seq![10u8]);
    assert(written(lines.push(line)) =~= written(lines) + encode_utf8(line) + seq![10u8]);
}

proof fn lemma_written_text(lines: Seq<Seq<char>>)
    ensures
        written(lines) == encode_utf8(text::join_on(lines.push(seq![]), '\n')),
    decreases lines.len(),
{
    let none: Seq<char> = seq![];
    let end: Seq<char> = seq!['\n'];
    if lines.len() == 0 {
        assert(lines.push(none)[0] == none);
        assert(written(lines) =~= encode_utf8(none));
    } else {
        let front = lines.drop_last();
        lemma_written_text(front);
        let before = text::join_on(front.push(none), '\n');
        let line = lines.last();
        assert(front.push(none).drop_last() == front);
        assert(before + line == text::join_on(lines, '\n')) by {
            if front.len() == 0 {
                assert(before =~= none);
                assert(none + line == line);
            } else {
                text::lemma_join_push(front, none, '\n');
                assert(before == text::join_on(front, '\n').push('\n'));
            }
        }
        text::lemma_join_push(lines, none, '\n');
        assert(text::join_on(lines.push(none), '\n') =~= before + line + end);
        text::lemma_encode_concat(before, line);
        text::lemma_encode_concat(before + line, end);
        assert(end.drop_first() == none);
        assert(encode_utf8(end) == encode_scalar('\n' as u32) + encode_utf8(end.drop_first()));
        assert((10u32 & 0x7f) as u8 == 10u8) by (bit_vector);
        assert(encode_utf8(end) =~= seq![10u8]);
        assert(written(lines) =~= encode_utf8(before + line + end));
    }
}

/// One line comes out for each line that goes in: what was written, read back as
/// UTF-8 and split at its line feeds, gives the lines again, and nothing but the
/// end of the text behind the last of them.
pub proof fn written_lines_split_back(lines: Seq<Seq<char>>)
    requires
        forall|i: int| 0 <= i < lines.len() ==> !(#[trigger] lines[i]).contains('\n'),
    ensures
        valid_utf8(written(lines)),
        text::split_on(decode_utf8(written(lines)), '\n') == lines.push(seq![]),
{
    let none: Seq<char> = seq![];
    let all = lines.push(none);
    lemma_written_text(lines);
    let out = text::join_on(all, '\n');
    encode_utf8_valid_utf8(out);
    encode_utf8_decode_utf8(out);
    assert forall|i: int| 0 <= i < all.len() implies !(#[trigger] all[i]).contains('\n') by {
        if i < lines.len() {
            assert(all[i] == lines[i]);
        }
    }
    text::lemma_split_of_join(all, '\n');
}

proof fn lemma_fitting_is_maximal(s: Seq<char>, room: int)
    requires
        room >= 0,
        fitting(s, room) < s.len(),
    ensures
        encode_utf8(s.take(fitting(s, room) + 1)).len() > room,
    decreases s.len(),
{
    let k = fitting(s, room);
    let head = s.take(k + 1);
    lemma_fitting(s, room);
    assert(head[0] == s[0]);
    if text::utf8_width(s[0]) <= room {
        let rest = s.drop_first();
        lemma_fitting_is_maximal(rest, room - text::utf8_width(s[0]));
        assert(head.drop_first() =~= rest.take(k));
    }
}

/// What a timestamp in milliseconds keeps, written out for a text whose last dot
/// stands at `d` (or that has none, if `d` is -1): every character up to where it
/// ends, with dashes for slashes; all of them where there is no dot; and of what
/// follows the dot as much as fits in three bytes, and no less. It can be cut exactly
/// if nothing is left over or three full bytes are kept.
pub proof fn millis_keeps_three_bytes_behind_the_last_dot(precise: Seq<char>, d: int)
    requires
        -1 <= d < precise.len(),
        d >= 0 ==> precise[d] == '.',
        forall|i: int| d < i < precise.len() ==> precise[i] != '.',
    ensures
        ({
            let m = millis(precise);
            let n = m.len() as int;
            &&& n <= precise.len()
            &&& forall|i: int|
                0 <= i < n ==> #[trigger] m[i] == if precise[i] == '/' {
                    '-'
                } else {
                    precise[i]
                }
            &&& d < 0 ==> n == precise.len() && cuts_at_millis(precise)
            &&& d >= 0 ==> {
                &&& d < n
                &&& encode_utf8(precise.subrange(d + 1, n)).len() <= 3
                &&& n < precise.len() ==> encode_utf8(precise.subrange(d + 1, n + 1)).len() > 3
                &&& cuts_at_millis(precise) <==> n == precise.len() || encode_utf8(
                    precise.subrange(d + 1, n),
                ).len() == 3
            }
        }),
{
    lemma_last_dot_is(precise, d);
    let f = fraction(precise);
    let k = fitting(f, 3);
    lemma_fitting(f, 3);
    if d >= 0 {
        assert(f.take(k) =~= precise.subrange(d + 1, d + 1 + k));
        if k < f.len() {
            lemma_fitting_is_maximal(f, 3);
            assert(f.take(k + 1) =~= precise.subrange(d + 1, d + 1 + k + 1));
        }
    }
}

proof fn lemma_fitting_ascii(s: Seq<char>, room: int)
    requires
        is_ascii_chars(s),
        room >= 0,
    ensures
        fitting(s, room) == if s.len() <= room { s.len() as int } else { room },
    decreases s.len(),
{
    if s.len() > 0 {
        assert(s[0] as u32 <= 0x7f);
        if room >= 1 {
            assert(is_ascii_chars(s.drop_first()));
            lemma_fitting_ascii(s.drop_first(), room - 1);
        }
    }
}

/// An ASCII timestamp can always be cut, and keeps its text up to the third
/// character behind its last dot.
pub proof fn ascii_timestamp_keeps_three_digits(precise: Seq<char>)
    requires
        is_ascii_chars(precise),
    ensures
        cuts_at_millis(precise),
        millis(precise) == if last_dot(precise) < 0 || precise.len() <= last_dot(precise) + 4 {
            dashed(precise)
        } else {
            dashed(precise).take(last_dot(precise) + 4)
        },
{
    let f = fraction(precise);
    lemma_last_dot(precise);
    assert(is_ascii_chars(f));
    lemma_fitting_ascii(f, 3);
    let k = fitting(f, 3);
    assert(is_ascii_chars(f.take(k)));
    is_ascii_chars_encode_utf8(f.take(k));
    assert(dashed(precise).take(precise.len() as int) == dashed(precise));
}

proof fn lemma_fitting_all(s: Seq<char>, room: int)
    ensures
        fitting(s.take(fitting(s, room)), room) == fitting(s, room),
    decreases s.len(),
{
    let k = fitting(s, room);
    if s.len() > 0 && text::utf8_width(s[0]) <= room {
        let rest = room - text::utf8_width(s[0]);
        lemma_fitting(s.drop_first(), rest);
        lemma_fitting_all(s.drop_first(), rest);
        assert(s.take(k).drop_first() == s.drop_first().take(k - 1));
        assert(s.take(k)[0] == s[0]);
    }
}

proof fn lemma_dashed_keeps_widths(s: Seq<char>, room: int)
    ensures
        fitting(dashed(s), room) == fitting(s, room),
        encode_utf8(dashed(s)).len() == encode_utf8(s).len(),
    decreases s.len(),
{
    if s.len() > 0 {
        assert(dashed(s).drop_first() =~= dashed(s.drop_first()));
        assert(text::utf8_width(dashed(s)[0]) == text::utf8_width(s[0]));
        lemma_dashed_keeps_widths(s.drop_first(), room - text::utf8_width(s[0]));
    }
}

/// A timestamp in milliseconds stays as it is: it holds no slash, has at most
/// three bytes behind its last dot, and reducing it again changes nothing.
pub proof fn millis_is_settled(precise: Seq<char>)
    requires
        cuts_at_millis(precise),
    ensures
        !millis(precise).contains('/'),
        encode_utf8(fraction(millis(precise))).len() <= 3,
        cuts_at_millis(millis(precise)),
        millis(millis(precise)) == millis(precise),
{
    let m = millis(precise);
    let n = millis_len(precise);
    let d = last_dot(precise);
    lemma_last_dot(precise);
    lemma_fitting(fraction(precise), 3);
    assert forall|i: int| 0 <= i < m.len() implies #[trigger] m[i] != '/' by {
        assert(m[i] == dashed(precise)[i]);
    }
    assert forall|i: int| d < i < m.len() implies m[i] != '.' by {
        assert(m[i] == dashed(precise)[i]);
        assert(precise[i] != '.');
    }
    lemma_last_dot_is(m, d);
    if d >= 0 {
        let f = fraction(precise);
        let k = fitting(f, 3);
        assert(fraction(m) =~= dashed(f.take(k)));
        lemma_dashed_keeps_widths(f.take(k), 3);
        lemma_fitting_all(f, 3);
    }
    assert(dashed(m) =~= m);
}

} // verus!
