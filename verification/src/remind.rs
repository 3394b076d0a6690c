//! One-shot reminders: a delayed mention in a chat channel.

use vstd::prelude::*;
use vstd::utf8::encode_utf8;

use crate::text::{
    ascii_lower, ascii_lowered, byte_len, chars_of, contains, copy_texts, decimal, digit, find,
    is_ascii_text, is_digit, is_text, is_white, join, joined, lemma_filter_all,
    lemma_replace_space, lemma_trimmed_ends, lowercase, occurs_at, render_u64, replace, replaced,
    string_of, texts, trim, trimmed,
};

verus! {

/// A point in time: seconds since the epoch and nanoseconds below a second.
#[derive(Clone, Copy, Debug, PartialEq, Eq, Structural)]
pub struct Moment {
    pub secs: i64,
    pub nanos: u32,
}

/// A single pending reminder.
#[derive(Debug)]
pub struct Reminder {
    pub id: String,
    pub channel_id: u64,
    pub sender_id: u64,
    /// Raw mention strings (e.g. "<@123>", "<@&456>")
    pub targets: Vec<String>,
    pub message: String,
    pub fire_at: Moment,
    pub created_at: Moment,
}

/// What a reminder says.
pub struct Note {
    pub id: Seq<char>,
    pub channel_id: u64,
    pub sender_id: u64,
    pub targets: Seq<Seq<char>>,
    pub message: Seq<char>,
    pub fire_at: Moment,
    pub created_at: Moment,
}

impl View for Reminder {
    type V = Note;

    open spec fn view(&self) -> Note {
        Note {
            id: self.id@,
            channel_id: self.channel_id,
            sender_id: self.sender_id,
            targets: texts(self.targets@),
            message: self.message@,
            fire_at: self.fire_at,
            created_at: self.created_at,
        }
    }
}

impl Clone for Reminder {
    fn clone(&self) -> (r: Self)
        ensures
            r@ == self@,
    {
        Reminder {
            id: self.id.clone(),
            channel_id: self.channel_id,
            sender_id: self.sender_id,
            targets: copy_texts(self.targets.as_slice()),
            message: self.message.clone(),
            fire_at: self.fire_at,
            created_at: self.created_at,
        }
    }
}

/// What a list of reminders says.
pub open spec fn notes(v: Seq<Reminder>) -> Seq<Note> {
    v.map_values(|r: Reminder| r@)
}

/// The pending reminders.
#[derive(Debug)]
pub struct ReminderStore {
    reminders: Vec<Reminder>,
}

impl View for ReminderStore {
    type V = Seq<Note>;

    closed spec fn view(&self) -> Seq<Note> {
        notes(self.reminders@)
    }
}

/// The reminders other than the one with the given id.
pub open spec fn without(v: Seq<Note>, id: Seq<char>) -> Seq<Note> {
    v.filter(|n: Note| n.id != id)
}

impl ReminderStore {
    /// A store of the given reminders.
    pub fn load(reminders: Vec<Reminder>) -> (s: Self)
        ensures
            s@ == notes(reminders@),
    {
        ReminderStore { reminders }
    }

    /// Add a reminder.
    pub fn add(&mut self, reminder: Reminder)
        ensures
            final(self)@ == old(self)@.push(reminder@),
    {
        self.reminders.push(reminder);
        assert(self@ =~= old(self)@.push(reminder@));
    }

    /// Remove a reminder by ID.
    pub fn remove(&mut self, id: &str)
        ensures
            final(self)@ == without(old(self)@, id@),
    {
        let wanted = chars_of(id);
        let ghost pred = |n: Note| n.id != id@;
        let ghost all = notes(self.reminders@);
        let mut kept: Vec<Reminder> = Vec::new();
        let mut i: usize = 0;
        proof {
            reveal(Seq::filter);
        }
        assert(notes(kept@) =~= all.take(0).filter(pred));
        while i < self.reminders.len()
            invariant
                i <= self.reminders@.len(),
                wanted@ == id@,
                all == notes(self.reminders@),
                all == old(self)@,
                pred == |n: Note| n.id != id@,
                notes(kept@) == all.take(i as int).filter(pred),
            decreases self.reminders@.len() - i,
        {
            let ghost before = kept@;
            if !is_text(wanted.as_slice(), self.reminders[i].id.as_str()) {
                kept.push(self.reminders[i].clone());
                assert(notes(kept@) =~= notes(before).push(all[i as int]));
            }
            proof {
                reveal(Seq::filter);
                assert(all.take(i + 1).drop_last() =~= all.take(i as int));
                assert(all.take(i + 1).last() == all[i as int]);
            }
            i += 1;
        }
        assert(all.take(i as int) =~= all);
        self.reminders = kept;
    }

    /// Get all pending reminders.
    pub fn pending(&self) -> (out: Vec<Reminder>)
        ensures
            notes(out@) == self@,
    {
        let mut out: Vec<Reminder> = Vec::new();
        let mut i: usize = 0;
        while i < self.reminders.len()
            invariant
                i <= self.reminders@.len(),
                notes(out@) == self@.take(i as int),
                self@ == notes(self.reminders@),
            decreases self.reminders@.len() - i,
        {
            let ghost before = out@;
            out.push(self.reminders[i].clone());
            assert(notes(out@) =~= notes(before).push(self@[i as int]));
            assert(self@.take(i + 1) =~= self@.take(i as int).push(self@[i as int]));
            i += 1;
        }
        assert(self@.take(i as int) =~= self@);
        out
    }
}

/// Maximum allowed message length for reminders.
pub const MAX_MESSAGE_LEN: usize = 1800;

/// Maximum number of mention targets per reminder.
pub const MAX_TARGETS: usize = 10;

/// A message in which mentions of everyone are broken by an invisible space.
pub open spec fn neutral(msg: Seq<char>) -> Seq<char> {
    replace(
        replace(msg, "@everyone"@, "@\u{200b}everyone"@),
        "@here"@,
        "@\u{200b}here"@,
    )
}

/// Sanitize reminder message: neutralize @everyone/@here.
pub fn sanitize_message(msg: &str) -> (out: String)
    ensures
        out@ == neutral(msg@),
{
    proof {
        reveal_strlit("@everyone");
        reveal_strlit("@here");
    }
    let chars = chars_of(msg);
    let once = replaced(chars.as_slice(), "@everyone", "@\u{200b}everyone");
    let twice = replaced(once.as_slice(), "@here", "@\u{200b}here");
    string_of(twice.as_slice())
}

/// Validate reminder message length.
pub fn validate_message(msg: &str) -> (r: Result<(), String>)
    ensures
        match r {
            Ok(()) => encode_utf8(msg@).len() <= MAX_MESSAGE_LEN,
            Err(e) => encode_utf8(msg@).len() > MAX_MESSAGE_LEN && e@
                == "message too long (max 1800 characters)"@,
        },
{
    if byte_len(msg) > MAX_MESSAGE_LEN {
        Err("message too long (max 1800 characters)".to_string())
    } else {
        Ok(())
    }
}

/// The number that digits stand for.
pub open spec fn digits_value(s: Seq<char>) -> nat
    decreases s.len(),
{
    if s.len() == 0 {
        0
    } else {
        digits_value(s.drop_last()) * 10 + (s.last() as u32 - '0' as u32) as nat
    }
}

/// The number that digits stand for, if there are any and it is not too large.
pub open spec fn parse_number(s: Seq<char>) -> Option<nat> {
    if s.len() == 0 || digits_value(s) > u64::MAX {
        None
    } else {
        Some(digits_value(s))
    }
}

/// The seconds of a unit.
pub open spec fn unit_seconds(c: char) -> Option<nat> {
    if c == 'm' {
        Some(60)
    } else if c == 'h' {
        Some(3600)
    } else if c == 'd' {
        Some(86400)
    } else {
        None
    }
}

/// The seconds that `s` stands for from index `i` on: `num` are the digits read
/// since the last unit, `total` the seconds before them. Digits at the end are
/// minutes.
pub open spec fn delay_from(
    s: Seq<char>,
    input: Seq<char>,
    i: int,
    num: Seq<char>,
    total: nat,
) -> Result<nat, Seq<char>>
    decreases s.len() - i,
{
    if i < 0 || i >= s.len() {
        if num.len() == 0 {
            Ok(total)
        } else {
            match parse_number(num) {
                None => Err("invalid number in delay: "@ + input),
                Some(n) => Ok(total + n * 60),
            }
        }
    } else if is_digit(s[i]) {
        delay_from(s, input, i + 1, num.push(s[i]), total)
    } else {
        match parse_number(num) {
            None => Err("invalid number in delay: "@ + input),
            Some(n) => match unit_seconds(s[i]) {
                None => Err("unknown unit '"@ + seq![s[i]] + "' in delay (use m/h/d)"@),
                Some(m) => delay_from(s, input, i + 1, Seq::empty(), total + n * m),
            },
        }
    }
}

/// The delay that `s`, in lower case and without white space at its ends, stands
/// for: between one minute and thirty days.
pub open spec fn delay_of(s: Seq<char>, input: Seq<char>) -> Result<nat, Seq<char>> {
    if s.len() == 0 {
        Err("empty delay"@)
    } else {
        match delay_from(s, input, 0, Seq::empty(), 0) {
            Err(e) => Err(e),
            Ok(total) => if total < 60 {
                Err("minimum delay is 1m"@)
            } else if total > 2_592_000 {
                Err("maximum delay is 30d"@)
            } else {
                Ok(total)
            },
        }
    }
}

/// The contents of a parsed delay.
pub open spec fn delay_result(r: Result<u64, String>) -> Result<nat, Seq<char>> {
    match r {
        Ok(n) => Ok(n as nat),
        Err(e) => Err(e@),
    }
}

/// A sum of seconds, exact as long as it is within the limit.
pub open spec fn capped(n: nat) -> nat {
    if n > 2_592_000 {
        2_592_001
    } else {
        n
    }
}

/// Adds `n` units of `m` seconds.
fn add_capped(total: u64, n: u64, m: u64, Ghost(exact): Ghost<nat>) -> (r: u64)
    requires
        total == capped(exact),
        1 <= m <= 86400,
    ensures
        r == capped(exact + n as nat * m as nat),
{
    assert(n as nat * m as nat >= n) by (nonlinear_arith)
        requires
            m >= 1,
    ;
    if total > 2_592_000 || n > 2_592_000 {
        2_592_001
    } else {
        assert(n as nat * m as nat <= 2_592_000 * 86400) by (nonlinear_arith)
            requires
                n <= 2_592_000,
                m <= 86400,
        ;
        let sum: u64 = total + n * m;
        if sum > 2_592_000 {
            2_592_001
        } else {
            sum
        }
    }
}

proof fn lemma_digits_grow(num: Seq<char>, c: char)
    requires
        is_digit(c),
    ensures
        digits_value(num.push(c)) == digits_value(num) * 10 + (c as u32 - '0' as u32),
{
    assert(num.push(c).drop_last() =~= num);
}

/// The delay that `s` stands for, which is `input` in lower case and without white
/// space at its ends.
pub fn parse_lower_delay(s: &str, input: &str) -> (r: Result<u64, String>)
    ensures
        delay_result(r) == delay_of(s@, input@),
{
    let chars = chars_of(s);
    if chars.len() == 0 {
        return Err("empty delay".to_string());
    }
    let mut total: u64 = 0;
    let ghost mut exact: nat = 0;
    let ghost mut num: Seq<char> = Seq::empty();
    let mut any = false;
    let mut over = false;
    let mut value: u64 = 0;
    let mut i: usize = 0;
    while i < chars.len()
        invariant
            i <= chars@.len(),
            chars@ == s@,
            chars@.len() > 0,
            total == capped(exact),
            any == (num.len() > 0),
            over == (digits_value(num) > u64::MAX),
            !over ==> value == digits_value(num),
            delay_from(s@, input@, 0, Seq::empty(), 0) == delay_from(
                s@,
                input@,
                i as int,
                num,
                exact,
            ),
        decreases chars@.len() - i,
    {
        let c = chars[i];
        if digit(c) {
            let d: u64 = (c as u32 - 48) as u64;
            proof {
                lemma_digits_grow(num, c);
                num = num.push(c);
            }
            if !over {
                if value > 1_844_674_407_370_955_161 || value * 10 > u64::MAX - d {
                    over = true;
                } else {
                    value = value * 10 + d;
                }
            }
            any = true;
        } else {
            if !any || over {
                return Err("invalid number in delay: ".to_string().concat(input));
            }
            let m: u64 = if c == 'm' {
                60
            } else if c == 'h' {
                3600
            } else if c == 'd' {
                86400
            } else {
                let mut msg = "unknown unit '".to_string();
                msg.push(c);
                assert(msg@ =~= "unknown unit '"@ + seq![c]);
                return Err(msg.concat("' in delay (use m/h/d)"));
            };
            total = add_capped(total, value, m, Ghost(exact));
            proof {
                exact = exact + value as nat * m as nat;
                num = Seq::empty();
            }
            any = false;
            value = 0;
        }
        i += 1;
    }
    if any {
        if over {
            return Err("invalid number in delay: ".to_string().concat(input));
        }
        total = add_capped(total, value, 60, Ghost(exact));
    }
    if total < 60 {
        return Err("minimum delay is 1m".to_string());
    }
    if total > 2_592_000 {
        return Err("maximum delay is 30d".to_string());
    }
    Ok(total)
}

/// The delay that an ASCII text stands for, in whatever case it is written.
pub open spec fn ascii_delay(input: Seq<char>) -> Result<nat, Seq<char>> {
    delay_of(ascii_lowered(trim(input)), input)
}

/// Parse a human delay string like "30m", "2h", "7d" into seconds.
/// Supports combinations: "1h30m", "2d12h".
/// Range: 1m (60s) to 30d (2_592_000s).
pub fn parse_delay(input: &str) -> (r: Result<u64, String>)
    ensures
        delay_result(r) == delay_of(lowercase(trim(input@)), input@),
        is_ascii_text(trim(input@)) ==> delay_result(r) == ascii_delay(input@),
        r is Ok ==> is_ascii_text(trim(input@)),
{
    let chars = chars_of(input);
    let text = string_of(trimmed(chars.as_slice()));
    let lower = text.as_str().to_lowercase();
    let r = parse_lower_delay(lower.as_str(), input);
    proof {
        if r is Ok {
            lemma_accepted_chars(lower@, input@, 0, Seq::empty(), 0);
            assert forall|i: int| 0 <= i < lower@.len() implies (#[trigger] lower@[i] as u32) < 128
                && lower@[i] != 'k' by {
                assert(delay_char(lower@[i]));
            }
        }
    }
    r
}

/// Characters of a delay: digits and units.
spec fn delay_char(c: char) -> bool {
    is_digit(c) || c == 'd' || c == 'h' || c == 'm'
}

/// An accepted delay is made of digits and units.
proof fn lemma_accepted_chars(s: Seq<char>, input: Seq<char>, i: int, num: Seq<char>, total: nat)
    requires
        0 <= i <= s.len(),
        delay_from(s, input, i, num, total) is Ok,
    ensures
        forall|j: int| i <= j < s.len() ==> delay_char(#[trigger] s[j]),
    decreases s.len() - i,
{
    if i < s.len() {
        if is_digit(s[i]) {
            lemma_accepted_chars(s, input, i + 1, num.push(s[i]), total);
        } else {
            let n = parse_number(num)->0;
            let m = unit_seconds(s[i])->0;
            lemma_accepted_chars(s, input, i + 1, Seq::empty(), total + n * m);
        }
    }
}

/// The parts of a delay that are not zero: days, hours and minutes.
pub open spec fn delay_parts(secs: u64) -> Seq<Seq<char>> {
    let d = (secs / 86400) as nat;
    let h = (secs % 86400 / 3600) as nat;
    let m = (secs % 3600 / 60) as nat;
    (if d > 0 { seq![decimal(d) + "d"@] } else { Seq::empty() })
    + (if h > 0 { seq![decimal(h) + "h"@] } else { Seq::empty() })
    + (if m > 0 { seq![decimal(m) + "m"@] } else { Seq::empty() })
}

/// A delay as it is shown.
pub open spec fn delay_shown(secs: u64) -> Seq<char> {
    if secs < 60 {
        "< 1m"@
    } else {
        join(delay_parts(secs), " "@)
    }
}

fn push_part(parts: &mut Vec<String>, n: u64, unit: &str)
    ensures
        texts(final(parts)@) == texts(old(parts)@) + (if n > 0 {
            seq![decimal(n as nat) + unit@]
        } else {
            Seq::empty()
        }),
{
    if n > 0 {
        parts.push(render_u64(n).concat(unit));
    }
    assert(texts(parts@) =~= texts(old(parts)@) + (if n > 0 {
        seq![decimal(n as nat) + unit@]
    } else {
        Seq::empty()
    }));
}

/// Format seconds into a human-readable string like "2h 30m".
pub fn format_delay(secs: u64) -> (out: String)
    ensures
        out@ == delay_shown(secs),
{
    let mut parts: Vec<String> = Vec::new();
    push_part(&mut parts, secs / 86400, "d");
    push_part(&mut parts, (secs % 86400) / 3600, "h");
    push_part(&mut parts, (secs % 3600) / 60, "m");
    assert(texts(parts@) =~= delay_parts(secs));
    if parts.len() == 0 {
        assert(delay_parts(secs).len() == 0);
        "< 1m".to_string()
    } else {
        joined(parts.as_slice(), " ")
    }
}

/// The nanoseconds from `now` to `at`; none where `at` has passed.
pub open spec fn nanos_until(at: Moment, now: Moment) -> int {
    let d = (at.secs - now.secs) * 1_000_000_000 + (at.nanos - now.nanos);
    if d > 0 {
        d
    } else {
        0
    }
}

/// The text that is posted when a reminder is due.
pub open spec fn reminder_text(n: Note) -> Seq<char> {
    "⏰ **Reminder** from <@"@ + decimal(n.sender_id as nat) + ">:\n\""@ + n.message + "\"\ncc "@
        + join(n.targets, " "@)
}

impl Reminder {
    /// How long to wait before the reminder is due, in nanoseconds.
    pub fn delay(&self, now: Moment) -> (r: u128)
        ensures
            r == nanos_until(self.fire_at, now),
    {
        let secs: i128 = self.fire_at.secs as i128 - now.secs as i128;
        let nanos: i128 = self.fire_at.nanos as i128 - now.nanos as i128;
        let d: i128 = secs * 1_000_000_000 + nanos;
        if d > 0 {
            d as u128
        } else {
            0
        }
    }

    /// The text that is posted when the reminder is due.
    pub fn content(&self) -> (out: String)
        ensures
            out@ == reminder_text(self@),
    {
        "⏰ **Reminder** from <@".to_string().concat(render_u64(self.sender_id).as_str()).concat(
            ">:\n\"",
        ).concat(self.message.as_str()).concat("\"\ncc ").concat(
            joined(self.targets.as_slice(), " ").as_str(),
        )
    }
}

/// Every accepted delay is between one minute and thirty days.
pub proof fn law_delay_in_range(s: Seq<char>, input: Seq<char>)
    ensures
        delay_of(s, input) matches Ok(n) ==> 60 <= n <= 2_592_000,
{
}

proof fn lemma_decimal_value(n: nat)
    ensures
        digits_value(decimal(n)) == n,
        decimal(n).len() > 0,
        forall|i: int| 0 <= i < decimal(n).len() ==> is_digit(#[trigger] decimal(n)[i]),
    decreases n,
{
    if n < 10 {
        let s = decimal(n);
        assert(s.drop_last() =~= Seq::<char>::empty());
        assert(digits_value(s.drop_last()) == 0);
        assert(s.last() as u32 - '0' as u32 == n);
    } else {
        lemma_decimal_value(n / 10);
        let front = decimal(n / 10);
        let s = decimal(n);
        assert(s.drop_last() =~= front);
        assert(s.last() as u32 - '0' as u32 == n % 10);
    }
}

/// Digits are collected until something else follows.
proof fn lemma_delay_digits(s: Seq<char>, input: Seq<char>, from: int, i: int, k: int, total: nat)
    requires
        0 <= from <= i <= k <= s.len(),
        forall|j: int| from <= j < k ==> is_digit(#[trigger] s[j]),
    ensures
        delay_from(s, input, i, s.subrange(from, i), total) == delay_from(
            s,
            input,
            k,
            s.subrange(from, k),
            total,
        ),
    decreases k - i,
{
    if i < k {
        assert(s.subrange(from, i).push(s[i]) =~= s.subrange(from, i + 1));
        lemma_delay_digits(s, input, from, i + 1, k, total);
    }
}

/// The text of several numbers with a unit each.
pub open spec fn delay_text(parts: Seq<(nat, char)>) -> Seq<char>
    decreases parts.len(),
{
    if parts.len() == 0 {
        Seq::empty()
    } else {
        decimal(parts[0].0).push(parts[0].1) + delay_text(parts.skip(1))
    }
}

/// The seconds of several numbers with a unit each.
pub open spec fn delay_sum(parts: Seq<(nat, char)>) -> nat
    decreases parts.len(),
{
    if parts.len() == 0 {
        0
    } else {
        parts[0].0 * unit_seconds(parts[0].1)->0 + delay_sum(parts.skip(1))
    }
}

proof fn lemma_delay_parts(
    s: Seq<char>,
    input: Seq<char>,
    i: int,
    total: nat,
    parts: Seq<(nat, char)>,
)
    requires
        0 <= i <= s.len(),
        s.skip(i) == delay_text(parts),
        forall|j: int|
            0 <= j < parts.len() ==> unit_seconds((#[trigger] parts[j]).1) is Some && parts[j].0
                <= u64::MAX,
    ensures
        delay_from(s, input, i, Seq::empty(), total) == Ok::<nat, Seq<char>>(
            total + delay_sum(parts),
        ),
    decreases parts.len(),
{
    if parts.len() == 0 {
        assert(s.skip(i).len() == 0);
    } else {
        let (n, unit) = parts[0];
        lemma_decimal_value(n);
        let d = decimal(n);
        let k = i + d.len();
        let head = d.push(unit);
        assert(s.skip(i) =~= head + delay_text(parts.skip(1)));
        assert forall|j: int| i <= j < k implies is_digit(#[trigger] s[j]) by {
            assert(s[j] == s.skip(i)[j - i]);
            assert(s[j] == d[j - i]);
        }
        assert(s.subrange(i, i) =~= Seq::<char>::empty());
        assert(s.subrange(i, k) =~= d) by {
            assert forall|j: int| 0 <= j < d.len() implies s.subrange(i, k)[j] == d[j] by {
                assert(s.skip(i)[j] == d[j]);
            }
        }
        assert(s[k] == unit) by {
            assert(s.skip(i)[d.len() as int] == unit);
        }
        lemma_delay_digits(s, input, i, i, k, total);
        assert(!is_digit(unit));
        let m = unit_seconds(unit)->0;
        assert(s.skip(k + 1) =~= delay_text(parts.skip(1))) by {
            assert(s.skip(k + 1) =~= s.skip(i).skip(head.len() as int));
        }
        assert forall|j: int| 0 <= j < parts.skip(1).len() implies unit_seconds(
            (#[trigger] parts.skip(1)[j]).1,
        ) is Some && parts.skip(1)[j].0 <= u64::MAX by {
            assert(parts.skip(1)[j] == parts[j + 1]);
        }
        lemma_delay_parts(s, input, k + 1, total + n * m, parts.skip(1));
    }
}

/// Numbers with units can be combined, in any order and number: the delay is the
/// sum of its parts.
pub proof fn law_combined_delay_is_the_sum(parts: Seq<(nat, char)>, input: Seq<char>)
    requires
        forall|j: int|
            0 <= j < parts.len() ==> unit_seconds((#[trigger] parts[j]).1) is Some && parts[j].0
                <= u64::MAX,
        60 <= delay_sum(parts) <= 2_592_000,
    ensures
        delay_of(delay_text(parts), input) == Ok::<nat, Seq<char>>(delay_sum(parts)),
{
    let s = delay_text(parts);
    assert(s.skip(0) =~= s);
    lemma_delay_parts(s, input, 0, 0, parts);
    lemma_decimal_value(parts[0].0);
}

/// A number and a unit stand for that many units; a number alone stands for minutes.
pub proof fn law_number_with_unit(n: nat, unit: char, input: Seq<char>)
    requires
        unit_seconds(unit) is Some,
        60 <= n * unit_seconds(unit)->0 <= 2_592_000,
    ensures
        delay_of(decimal(n).push(unit), input) == Ok::<nat, Seq<char>>(n * unit_seconds(unit)->0),
        unit == 'm' ==> delay_of(decimal(n), input) == Ok::<nat, Seq<char>>(n * 60),
{
    lemma_decimal_value(n);
    let m = unit_seconds(unit)->0;
    assert(n <= n * m) by (nonlinear_arith)
        requires
            m >= 1,
    ;
    let s = decimal(n).push(unit);
    let k = decimal(n).len() as int;
    assert forall|j: int| 0 <= j < k implies is_digit(#[trigger] s[j]) by {
        assert(s[j] == decimal(n)[j]);
    }
    assert(s.subrange(0, 0) =~= Seq::<char>::empty());
    assert(s.subrange(0, k) =~= decimal(n));
    lemma_delay_digits(s, input, 0, 0, k, 0);
    assert(!is_digit(unit));
    assert(delay_from(s, input, k + 1, Seq::empty(), n * m) == Ok::<nat, Seq<char>>(n * m));
    if unit == 'm' {
        let t = decimal(n);
        assert(t.subrange(0, 0) =~= Seq::<char>::empty());
        assert(t.subrange(0, k) =~= t);
        lemma_delay_digits(t, input, 0, 0, k, 0);
    }
}

/// A text that ends in a unit is read up to its end whatever follows it.
proof fn lemma_delay_front(
    s: Seq<char>,
    t: Seq<char>,
    input: Seq<char>,
    both: Seq<char>,
    i: int,
    num: Seq<char>,
    total: nat,
)
    requires
        0 <= i <= s.len(),
        i == s.len() ==> num.len() == 0,
        s.len() > 0 ==> !is_digit(s.last()),
        delay_from(s, input, i, num, total) is Ok,
    ensures
        delay_from(s + t, both, i, num, total) == delay_from(
            s + t,
            both,
            s.len() as int,
            Seq::empty(),
            delay_from(s, input, i, num, total)->Ok_0,
        ),
    decreases s.len() - i,
{
    if i < s.len() {
        assert((s + t)[i] == s[i]);
        if is_digit(s[i]) {
            lemma_delay_front(s, t, input, both, i + 1, num.push(s[i]), total);
        } else {
            let n = parse_number(num)->0;
            let m = unit_seconds(s[i])->0;
            lemma_delay_front(s, t, input, both, i + 1, Seq::empty(), total + n * m);
        }
    } else {
        assert(num =~= Seq::<char>::empty());
    }
}

/// Behind another text a delay adds to what came before.
proof fn lemma_delay_back(
    s: Seq<char>,
    t: Seq<char>,
    input: Seq<char>,
    both: Seq<char>,
    j: int,
    num: Seq<char>,
    total: nat,
    x: nat,
)
    requires
        0 <= j <= t.len(),
        delay_from(t, input, j, num, total) is Ok,
    ensures
        delay_from(s + t, both, s.len() + j, num, x + total) == Ok::<nat, Seq<char>>(
            x + delay_from(t, input, j, num, total)->Ok_0,
        ),
    decreases t.len() - j,
{
    if j < t.len() {
        assert((s + t)[s.len() + j] == t[j]);
        if is_digit(t[j]) {
            lemma_delay_back(s, t, input, both, j + 1, num.push(t[j]), total, x);
        } else {
            let n = parse_number(num)->0;
            let m = unit_seconds(t[j])->0;
            lemma_delay_back(s, t, input, both, j + 1, Seq::empty(), total + n * m, x);
        }
    }
}

/// Two delays written one behind the other add up, whatever their digits and case,
/// where the first one ends in a unit; a sum over the limit is refused. Every text that
/// is accepted as a delay is ASCII, so this covers all of them.
pub proof fn law_delays_add_up(a: Seq<char>, b: Seq<char>, x: nat, y: nat)
    requires
        is_ascii_text(a),
        is_ascii_text(b),
        trim(a) == a,
        trim(b) == b,
        a.len() > 0,
        unit_seconds(ascii_lower(a.last())) is Some,
        ascii_delay(a) == Ok::<nat, Seq<char>>(x),
        ascii_delay(b) == Ok::<nat, Seq<char>>(y),
    ensures
        is_ascii_text(a + b),
        ascii_delay(a + b) == (if x + y <= 2_592_000 {
            Ok::<nat, Seq<char>>(x + y)
        } else {
            Err::<nat, Seq<char>>("maximum delay is 30d"@)
        }),
{
    let s = ascii_lowered(a);
    let t = ascii_lowered(b);
    lemma_trimmed_ends(a);
    lemma_trimmed_ends(b);
    assert((a + b).last() == b.last());
    assert(trim(a + b) == a + b);
    assert(ascii_lowered(a + b) =~= s + t);
    assert(s.last() == ascii_lower(a.last()));
    lemma_delay_front(s, t, a, a + b, 0, Seq::empty(), 0);
    lemma_delay_back(s, t, b, a + b, 0, Seq::empty(), 0, x);
}

/// The numbers and units of a delay, `n` of the unit `c` last unless there are none.
spec fn push_unit(q: Seq<(nat, char)>, n: nat, c: char) -> Seq<(nat, char)> {
    if n > 0 {
        q.push((n, c))
    } else {
        q
    }
}

/// The numbers and units in which a delay is shown.
spec fn delay_units(secs: u64) -> Seq<(nat, char)> {
    push_unit(
        push_unit(
            push_unit(Seq::empty(), (secs / 86400) as nat, 'd'),
            (secs % 86400 / 3600) as nat,
            'h',
        ),
        (secs % 3600 / 60) as nat,
        'm',
    )
}

/// The texts of numbers with a unit each.
spec fn unit_texts(q: Seq<(nat, char)>) -> Seq<Seq<char>> {
    q.map_values(|p: (nat, char)| decimal(p.0).push(p.1))
}

proof fn lemma_delay_push(q: Seq<(nat, char)>, p: (nat, char))
    ensures
        delay_text(q.push(p)) == delay_text(q) + decimal(p.0).push(p.1),
        delay_sum(q.push(p)) == delay_sum(q) + p.0 * unit_seconds(p.1)->0,
    decreases q.len(),
{
    let r = q.push(p);
    if q.len() == 0 {
        assert(r.skip(1) =~= q);
        assert(r[0] == p);
        assert(delay_text(q) =~= Seq::<char>::empty());
        assert(delay_text(r) =~= delay_text(q) + decimal(p.0).push(p.1));
    } else {
        assert(r.skip(1) =~= q.skip(1).push(p));
        assert(r[0] == q[0]);
        lemma_delay_push(q.skip(1), p);
        assert(delay_text(r) =~= delay_text(q) + decimal(p.0).push(p.1));
    }
}

/// Each number has a unit.
spec fn units_ok(q: Seq<(nat, char)>) -> bool {
    forall|j: int| 0 <= j < q.len() ==> unit_seconds((#[trigger] q[j]).1) is Some
}

proof fn lemma_unit_text(p: (nat, char))
    requires
        unit_seconds(p.1) is Some,
    ensures
        forall|i: int|
            0 <= i < decimal(p.0).push(p.1).len() ==> delay_char(
                #[trigger] decimal(p.0).push(p.1)[i],
            ),
{
    lemma_decimal_value(p.0);
    let d = decimal(p.0);
    assert forall|i: int| 0 <= i < d.push(p.1).len() implies delay_char(
        #[trigger] d.push(p.1)[i],
    ) by {
        if i < d.len() {
            assert(is_digit(d[i]));
        }
    }
}

proof fn lemma_delay_text_chars(q: Seq<(nat, char)>)
    requires
        units_ok(q),
    ensures
        forall|i: int| 0 <= i < delay_text(q).len() ==> delay_char(#[trigger] delay_text(q)[i]),
    decreases q.len(),
{
    if q.len() > 0 {
        let rest = q.skip(1);
        let head = decimal(q[0].0).push(q[0].1);
        assert(units_ok(rest)) by {
            assert forall|j: int| 0 <= j < rest.len() implies unit_seconds(
                (#[trigger] rest[j]).1,
            ) is Some by {
                assert(rest[j] == q[j + 1]);
            }
        }
        lemma_unit_text(q[0]);
        lemma_delay_text_chars(rest);
        assert forall|i: int| 0 <= i < delay_text(q).len() implies delay_char(
            #[trigger] delay_text(q)[i],
        ) by {
            if i < head.len() {
                assert(delay_text(q)[i] == head[i]);
            } else {
                assert(delay_text(q)[i] == delay_text(rest)[i - head.len()]);
            }
        }
    }
}

/// Taking the space between two texts out, where the second one has none.
proof fn lemma_joined_without_spaces(a: Seq<char>, b: Seq<char>)
    requires
        forall|i: int| 0 <= i < b.len() ==> delay_char(#[trigger] b[i]),
    ensures
        (a + " "@ + b).filter(|c: char| c != ' ') == a.filter(|c: char| c != ' ') + b,
        b.filter(|c: char| c != ' ') == b,
{
    reveal_strlit(" ");
    let pred = |c: char| c != ' ';
    assert forall|i: int| 0 <= i < b.len() implies pred(#[trigger] b[i]) by {
        assert(delay_char(b[i]));
    }
    lemma_filter_all(b, pred);
    Seq::filter_distributes_over_add(a + " "@, b, pred);
    Seq::filter_distributes_over_add(a, " "@, pred);
    assert(" "@.filter(pred) =~= Seq::<char>::empty()) by {
        reveal(Seq::filter);
        assert(" "@.drop_last() =~= Seq::<char>::empty());
        assert(" "@.last() == ' ');
        assert(" "@.drop_last().filter(pred) =~= Seq::<char>::empty());
    }
    assert(a.filter(pred) + " "@.filter(pred) =~= a.filter(pred));
}

/// The shown parts of a delay without the spaces between them are its text.
proof fn lemma_shown_without_spaces(q: Seq<(nat, char)>)
    requires
        units_ok(q),
    ensures
        join(unit_texts(q), " "@).filter(|c: char| c != ' ') == delay_text(q),
    decreases q.len(),
{
    let pred = |c: char| c != ' ';
    let parts = unit_texts(q);
    if q.len() == 0 {
        assert(join(parts, " "@).filter(pred) =~= Seq::<char>::empty()) by {
            reveal(Seq::filter);
        }
    } else {
        let front = q.drop_last();
        let p = q.last();
        let last = decimal(p.0).push(p.1);
        assert(units_ok(front)) by {
            assert forall|j: int| 0 <= j < front.len() implies unit_seconds(
                (#[trigger] front[j]).1,
            ) is Some by {
                assert(front[j] == q[j]);
            }
        }
        assert(unit_seconds(q[q.len() - 1].1) is Some);
        lemma_unit_text(p);
        lemma_shown_without_spaces(front);
        assert(front.push(p) =~= q);
        lemma_delay_push(front, p);
        assert(parts.drop_last() =~= unit_texts(front));
        assert(parts.last() == last);
        let j = join(unit_texts(front), " "@);
        lemma_joined_without_spaces(j, last);
        if q.len() == 1 {
            assert(front =~= Seq::<(nat, char)>::empty());
            assert(delay_text(q) =~= last);
        }
    }
}

proof fn lemma_shown_parts(secs: u64)
    ensures
        delay_parts(secs) == unit_texts(delay_units(secs)),
        units_ok(delay_units(secs)),
        forall|j: int| 0 <= j < delay_units(secs).len() ==> 0 < (#[trigger] delay_units(secs)[j]).0
            <= u64::MAX,
        delay_sum(delay_units(secs)) == secs - secs % 60,
{
    reveal_strlit("d");
    reveal_strlit("h");
    reveal_strlit("m");
    let d = (secs / 86400) as nat;
    let h = (secs % 86400 / 3600) as nat;
    let m = (secs % 3600 / 60) as nat;
    let none = Seq::<(nat, char)>::empty();
    let q1 = push_unit(none, d, 'd');
    let q2 = push_unit(q1, h, 'h');
    let q3 = push_unit(q2, m, 'm');
    lemma_delay_push(none, (d, 'd'));
    lemma_delay_push(q1, (h, 'h'));
    lemma_delay_push(q2, (m, 'm'));
    assert(delay_sum(q1) == d * 86400);
    assert(delay_sum(q2) == d * 86400 + h * 3600);
    assert(delay_sum(q3) == d * 86400 + h * 3600 + m * 60);
    assert(d * 86400 + h * 3600 + m * 60 == secs - secs % 60);
    assert(decimal(d) + "d"@ =~= decimal(d).push('d'));
    assert(decimal(h) + "h"@ =~= decimal(h).push('h'));
    assert(decimal(m) + "m"@ =~= decimal(m).push('m'));
    assert(delay_parts(secs) =~= unit_texts(q3));
}

proof fn lemma_decimal_head(n: nat)
    requires
        n > 0,
    ensures
        decimal(n)[0] != '0',
    decreases n,
{
    if n < 10 {
        assert(decimal(n)[0] as u32 == '0' as u32 + n);
    } else {
        lemma_decimal_head(n / 10);
        lemma_decimal_value(n / 10);
    }
}

/// Reading what was shown gives the delay back, less its odd seconds, once the spaces
/// are taken out; and no part of what is shown is zero.
pub proof fn law_shown_delay_is_read_back(secs: u64)
    requires
        60 <= secs <= 2_592_000,
    ensures
        is_ascii_text(replace(delay_shown(secs), " "@, ""@)),
        ascii_delay(replace(delay_shown(secs), " "@, ""@)) == Ok::<nat, Seq<char>>(
            (secs - secs % 60) as nat,
        ),
        forall|i: int|
            0 <= i < delay_parts(secs).len() ==> (#[trigger] delay_parts(secs)[i]).len() > 1
                && delay_parts(secs)[i][0] != '0',
{
    let q = delay_units(secs);
    let text = delay_text(q);
    lemma_shown_parts(secs);
    lemma_shown_without_spaces(q);
    lemma_delay_text_chars(q);
    lemma_replace_space(delay_shown(secs));
    assert(replace(delay_shown(secs), " "@, ""@) == text);
    assert forall|i: int| 0 <= i < text.len() implies !is_white(#[trigger] text[i]) && (
    text[i] as u32) < 128 && ascii_lower(text[i]) == text[i] by {
        assert(delay_char(text[i]));
    }
    assert(trim(text) == text);
    assert(ascii_lowered(text) =~= text);
    law_combined_delay_is_the_sum(q, text);
    assert forall|i: int| 0 <= i < delay_parts(secs).len() implies (
    #[trigger] delay_parts(secs)[i]).len() > 1 && delay_parts(secs)[i][0] != '0' by {
        let p = q[i];
        assert(delay_parts(secs)[i] == decimal(p.0).push(p.1));
        lemma_decimal_value(p.0);
        lemma_decimal_head(p.0);
    }
}

/// Removing a reminder takes it out and leaves all others as they were.
pub proof fn law_removed_reminder_is_gone(v: Seq<Note>, id: Seq<char>)
    ensures
        forall|i: int| 0 <= i < without(v, id).len() ==> (#[trigger] without(v, id)[i]).id != id,
        forall|i: int|
            0 <= i < v.len() && (#[trigger] v[i]).id != id ==> without(v, id).contains(v[i]),
{
    let pred = |n: Note| n.id != id;
    assert forall|i: int| 0 <= i < without(v, id).len() implies (#[trigger] without(v, id)[i]).id
        != id by {
        v.lemma_filter_pred(pred, i);
    }
    assert forall|i: int| 0 <= i < v.len() && (#[trigger] v[i]).id != id implies without(
        v,
        id,
    ).contains(v[i]) by {
        v.lemma_filter_contains(pred, i);
    }
}

/// Whether a text starts with an at sign and has no other.
spec fn at_word(pat: Seq<char>) -> bool {
    pat.len() >= 2 && pat[0] == '@' && forall|i: int| 0 < i < pat.len() ==> #[trigger] pat[i] != '@'
}

/// Breaking one word never leaves that word, nor makes another that was not there.
proof fn lemma_broken_word(s: Seq<char>, pat: Seq<char>, with: Seq<char>, other: Seq<char>)
    requires
        at_word(pat),
        at_word(with),
        at_word(other),
        with[1] != other[1],
        other == pat || !contains(s, other),
    ensures
        !contains(replace(s, pat, with), other),
    decreases s.len(),
{
    crate::text::lemma_find_from(s, pat, 0);
    crate::text::lemma_find_from(s, other, 0);
    let r = replace(s, pat, with);
    crate::text::lemma_find_from(r, other, 0);
    if let Some(i) = find(s, pat) {
        let tail = s.skip(i + pat.len());
        let rest = replace(tail, pat, with);
        crate::text::lemma_find_from(tail, other, 0);
        if other != pat {
            if let Some(k) = find(tail, other) {
                let at = i + pat.len() + k;
                assert(s.subrange(at, at + other.len()) =~= tail.subrange(k, k + other.len()));
                assert(occurs_at(s, other, at));
            }
        }
        lemma_broken_word(tail, pat, with, other);
        crate::text::lemma_find_from(rest, other, 0);
        if let Some(k) = find(r, other) {
            let m = other.len();
            assert(forall|j: int| 0 <= j < m ==> r.subrange(k, k + m)[j] == other[j]);
            assert(forall|j: int| 0 <= j < m ==> r[k + j] == #[trigger] other[j]);
            if k < i {
                if k + m <= i {
                    assert(s.subrange(k, k + m) =~= other);
                    assert(occurs_at(s, other, k));
                } else {
                    assert(r[i] == with[0]);
                    assert(other[i - k] == '@');
                }
            } else if k == i {
                assert(r[k + 1] == with[1]);
                assert(other[1] == r[k + 1]);
            } else if k < i + with.len() {
                assert(r[k] == with[k - i]);
                assert(other[0] == r[k]);
            } else {
                let at = k - i - with.len();
                assert(rest.subrange(at, at + m) =~= r.subrange(k, k + m));
                assert(occurs_at(rest, other, at));
            }
        }
    }
}

/// Whatever a reminder says, it addresses neither everyone nor all who are present.
pub proof fn law_sanitized_message_has_no_broadcast(msg: Seq<char>)
    ensures
        !contains(neutral(msg), "@everyone"@),
        !contains(neutral(msg), "@here"@),
{
    reveal_strlit("@everyone");
    reveal_strlit("@here");
    reveal_strlit("@\u{200b}everyone");
    reveal_strlit("@\u{200b}here");
    let once = replace(msg, "@everyone"@, "@\u{200b}everyone"@);
    lemma_broken_word(msg, "@everyone"@, "@\u{200b}everyone"@, "@everyone"@);
    lemma_broken_word(once, "@here"@, "@\u{200b}here"@, "@everyone"@);
    lemma_broken_word(once, "@here"@, "@\u{200b}here"@, "@here"@);
}

/// What is wrong with a delay is told: nothing to read, a unit without a number before it,
/// a unit that is none, a delay that is too short and one that is too long.
pub proof fn law_delay_errors(n: nat, c: char, rest: Seq<char>, input: Seq<char>)
    requires
        n <= u64::MAX,
        !is_digit(c),
    ensures
        delay_of(Seq::empty(), input) == Err::<nat, Seq<char>>("empty delay"@),
        delay_of(seq![c] + rest, input) == Err::<nat, Seq<char>>(
            "invalid number in delay: "@ + input,
        ),
        c != 'm' && c != 'h' && c != 'd' ==> delay_of(decimal(n).push(c) + rest, input) == Err::<
            nat,
            Seq<char>,
        >("unknown unit '"@ + seq![c] + "' in delay (use m/h/d)"@),
        n == 0 ==> delay_of(decimal(n).push('d'), input) == Err::<nat, Seq<char>>(
            "minimum delay is 1m"@,
        ),
        n > 43200 ==> delay_of(decimal(n).push('m'), input) == Err::<nat, Seq<char>>(
            "maximum delay is 30d"@,
        ),
{
    lemma_decimal_value(n);
    let none = Seq::<char>::empty();
    let d = decimal(n);
    let k = d.len() as int;
    let a = seq![c] + rest;
    assert(a[0] == c);
    let s = d.push(c) + rest;
    assert forall|j: int| 0 <= j < k implies is_digit(#[trigger] s[j]) by {
        assert(s[j] == d[j]);
    }
    assert(s.subrange(0, 0) =~= none);
    assert(s.subrange(0, k) =~= d);
    assert(s[k] == c);
    lemma_delay_digits(s, input, 0, 0, k, 0);
    lemma_one_part(n, 'd', input);
    lemma_one_part(n, 'm', input);
}

proof fn lemma_one_part(n: nat, unit: char, input: Seq<char>)
    requires
        n <= u64::MAX,
        unit_seconds(unit) is Some,
    ensures
        delay_from(decimal(n).push(unit), input, 0, Seq::empty(), 0) == Ok::<nat, Seq<char>>(
            n * unit_seconds(unit)->0,
        ),
        decimal(n).push(unit).len() > 0,
{
    let q = seq![(n, unit)];
    let s = delay_text(q);
    assert(q.skip(1) =~= Seq::<(nat, char)>::empty());
    assert(delay_text(q.skip(1)) =~= Seq::<char>::empty());
    assert(s =~= decimal(n).push(unit));
    assert(s.skip(0) =~= s);
    assert forall|j: int| 0 <= j < q.len() implies unit_seconds((#[trigger] q[j]).1) is Some
        && q[j].0 <= u64::MAX by {}
    lemma_delay_parts(s, input, 0, 0, q);
    assert(delay_sum(q.skip(1)) == 0);
    assert(delay_sum(q) == n * unit_seconds(unit)->0);
}

/// Units are minutes, hours and days, and nothing else.
pub proof fn law_units(c: char)
    ensures
        unit_seconds('m') == Some(60nat),
        unit_seconds('h') == Some(3600nat),
        unit_seconds('d') == Some(86400nat),
        c != 'm' && c != 'h' && c != 'd' ==> unit_seconds(c) is None,
{
}

/// A delay is shown in days, hours below a day and minutes below an hour, each with its
/// unit; what is zero is left out, and less than a minute is told as that.
pub proof fn law_shown_delay(secs: u64)
    ensures
        secs < 60 ==> delay_shown(secs) == "< 1m"@,
        secs >= 60 ==> delay_shown(secs) == join(delay_parts(secs), " "@),
        delay_parts(secs) == (if secs / 86400 > 0 {
            seq![decimal((secs / 86400) as nat) + "d"@]
        } else {
            Seq::empty()
        }) + (if secs % 86400 / 3600 > 0 {
            seq![decimal((secs % 86400 / 3600) as nat) + "h"@]
        } else {
            Seq::empty()
        }) + (if secs % 3600 / 60 > 0 {
            seq![decimal((secs % 3600 / 60) as nat) + "m"@]
        } else {
            Seq::empty()
        }),
{
}

/// Until a moment that lies ahead the time between the two passes, in nanoseconds; for one
/// that has passed there is nothing to wait for.
pub proof fn law_time_until(at: Moment, now: Moment)
    ensures
        ({
            let a = at.secs * 1_000_000_000 + at.nanos;
            let b = now.secs * 1_000_000_000 + now.nanos;
            &&& a >= b ==> b + nanos_until(at, now) == a
            &&& a <= b ==> nanos_until(at, now) == 0
        }),
{
}

/// A reminder names who set it, quotes its message and ends with those it is for.
pub proof fn law_reminder_text(n: Note)
    ensures
        reminder_text(n) == "⏰ **Reminder** from <@"@ + decimal(n.sender_id as nat) + ">:\n\""@
            + n.message + "\"\ncc "@ + join(n.targets, " "@),
{
}

/// Reminders keep their order; only those with the id go.
pub proof fn law_removal_keeps_order(v: Seq<Note>, n: Note, id: Seq<char>)
    ensures
        without(Seq::empty(), id) == Seq::<Note>::empty(),
        without(v.push(n), id) == (if n.id == id {
            without(v, id)
        } else {
            without(v, id).push(n)
        }),
{
    reveal(Seq::filter);
    assert(v.push(n).drop_last() =~= v);
    assert(without(Seq::empty(), id) =~= Seq::<Note>::empty());
}

/// A text without the invisible spaces.
pub open spec fn visible(s: Seq<char>) -> Seq<char>
    decreases s.len(),
{
    if s.len() == 0 {
        Seq::empty()
    } else if s.last() == '\u{200b}' {
        visible(s.drop_last())
    } else {
        visible(s.drop_last()).push(s.last())
    }
}

proof fn lemma_visible_add(a: Seq<char>, b: Seq<char>)
    ensures
        visible(a + b) == visible(a) + visible(b),
    decreases b.len(),
{
    if b.len() == 0 {
        assert(a + b =~= a);
        assert(visible(a) + visible(b) =~= visible(a));
    } else {
        assert((a + b).drop_last() =~= a + b.drop_last());
        lemma_visible_add(a, b.drop_last());
        assert(visible(a + b) =~= visible(a) + visible(b));
    }
}

proof fn lemma_visible_replace(s: Seq<char>, pat: Seq<char>, with: Seq<char>)
    requires
        pat.len() > 0,
        visible(with) == visible(pat),
    ensures
        visible(replace(s, pat, with)) == visible(s),
    decreases s.len(),
{
    crate::text::lemma_find_from(s, pat, 0);
    if let Some(i) = find(s, pat) {
        let rest = s.skip(i + pat.len());
        lemma_visible_replace(rest, pat, with);
        assert(s =~= s.take(i) + pat + rest);
        lemma_visible_add(s.take(i) + pat, rest);
        lemma_visible_add(s.take(i), pat);
        lemma_visible_add(s.take(i) + with, replace(rest, pat, with));
        lemma_visible_add(s.take(i), with);
    }
}

proof fn lemma_visible_word(a: Seq<char>, tail: Seq<char>, word: Seq<char>, broken: Seq<char>)
    requires
        word == a + tail,
        broken == a.push('\u{200b}') + tail,
    ensures
        visible(broken) == visible(word),
{
    lemma_visible_add(a.push('\u{200b}'), tail);
    lemma_visible_add(a, tail);
    assert(a.push('\u{200b}').drop_last() =~= a);
}

/// Neutralizing a message changes nothing that can be seen, and leaves a message without
/// such mentions as it is.
pub proof fn law_sanitized_message_reads_the_same(msg: Seq<char>)
    ensures
        visible(neutral(msg)) == visible(msg),
        !contains(msg, "@everyone"@) && !contains(msg, "@here"@) ==> neutral(msg) == msg,
{
    reveal_strlit("@everyone");
    reveal_strlit("@here");
    reveal_strlit("@\u{200b}everyone");
    reveal_strlit("@\u{200b}here");
    let e = "@everyone"@.skip(1);
    let h = "@here"@.skip(1);
    assert("@everyone"@ =~= seq!['@'] + e);
    assert("@\u{200b}everyone"@ =~= seq!['@'].push('\u{200b}') + e);
    assert("@here"@ =~= seq!['@'] + h);
    assert("@\u{200b}here"@ =~= seq!['@'].push('\u{200b}') + h);
    lemma_visible_word(seq!['@'], e, "@everyone"@, "@\u{200b}everyone"@);
    lemma_visible_word(seq!['@'], h, "@here"@, "@\u{200b}here"@);
    let once = replace(msg, "@everyone"@, "@\u{200b}everyone"@);
    lemma_visible_replace(msg, "@everyone"@, "@\u{200b}everyone"@);
    lemma_visible_replace(once, "@here"@, "@\u{200b}here"@);
}

} // verus!
