//! Characters and text: the classes, orders and renderings that the rest of
//! the crate is specified with.
use vstd::prelude::*;

verus! {

/// `String::push` appends one character.
pub assume_specification[ String::push ](s: &mut String, c: char)
    ensures
        final(s)@ == old(s)@.push(c),
;

/// The control characters of Unicode (general category `Cc`).
pub open spec fn is_control_char(c: char) -> bool {
    c <= '\u{1f}' || '\u{7f}' <= c <= '\u{9f}'
}

/// The characters with the Unicode property `White_Space`.
pub open spec fn is_white_space_char(c: char) -> bool {
    ||| '\u{9}' <= c <= '\u{d}'
    ||| c == '\u{20}'
    ||| c == '\u{85}'
    ||| c == '\u{a0}'
    ||| c == '\u{1680}'
    ||| '\u{2000}' <= c <= '\u{200a}'
    ||| '\u{2028}' <= c <= '\u{2029}'
    ||| c == '\u{202f}'
    ||| c == '\u{205f}'
    ||| c == '\u{3000}'
}

/// Whether `c` is a control character.
pub fn is_control(c: char) -> (r: bool)
    ensures
        r == is_control_char(c),
{
    c <= '\u{1f}' || ('\u{7f}' <= c && c <= '\u{9f}')
}

/// Whether `c` is white space.
pub fn is_white_space(c: char) -> (r: bool)
    ensures
        r == is_white_space_char(c),
{
    ('\u{9}' <= c && c <= '\u{d}') || c == '\u{20}' || c == '\u{85}' || c == '\u{a0}' || c
        == '\u{1680}' || ('\u{2000}' <= c && c <= '\u{200a}') || ('\u{2028}' <= c && c
        <= '\u{2029}') || c == '\u{202f}' || c == '\u{205f}' || c == '\u{3000}'
}

/// What is stripped from the two ends of a text.
#[derive(Clone, Copy, PartialEq, Eq, Structural)]
pub enum Strip {
    /// Full stops and spaces.
    DotsAndSpaces,
    /// White space.
    WhiteSpace,
}

impl Strip {
    /// Whether `c` is stripped.
    pub open spec fn removes(self, c: char) -> bool {
        match self {
            Strip::DotsAndSpaces => c == '.' || c == ' ',
            Strip::WhiteSpace => is_white_space_char(c),
        }
    }

    /// Whether `c` is stripped.
    pub fn strips(self, c: char) -> (r: bool)
        ensures
            r == self.removes(c),
    {
        match self {
            Strip::DotsAndSpaces => c == '.' || c == ' ',
            Strip::WhiteSpace => is_white_space(c),
        }
    }
}

/// `s` without the longest run of stripped characters at its start.
pub open spec fn strip_start(s: Seq<char>, strip: Strip) -> Seq<char>
    decreases s.len(),
{
    if s.len() > 0 && strip.removes(s[0]) {
        strip_start(s.drop_first(), strip)
    } else {
        s
    }
}

/// `s` without the longest run of stripped characters at its end.
pub open spec fn strip_end(s: Seq<char>, strip: Strip) -> Seq<char>
    decreases s.len(),
{
    if s.len() > 0 && strip.removes(s.last()) {
        strip_end(s.drop_last(), strip)
    } else {
        s
    }
}

/// `s` without stripped characters at either end.
pub open spec fn stripped(s: Seq<char>, strip: Strip) -> Seq<char> {
    strip_end(strip_start(s, strip), strip)
}

/// `s` without white space at either end.
pub open spec fn trimmed(s: Seq<char>) -> Seq<char> {
    stripped(s, Strip::WhiteSpace)
}

/// The characters of `s`.
pub fn chars_of(s: &str) -> (r: Vec<char>)
    ensures
        r@ == s@,
{
    let mut out: Vec<char> = Vec::new();
    for c in it: s.chars()
        invariant
            it.seq() == s@,
            out@ == s@.take(it.index() as int),
    {
        out.push(c);
    }
    assert(s@.take(s@.len() as int) == s@);
    out
}

/// The text made of the characters `chars[from..to]`.
pub fn text_of(chars: &Vec<char>, from: usize, to: usize) -> (r: String)
    requires
        from <= to <= chars@.len(),
    ensures
        r@ == chars@.subrange(from as int, to as int),
{
    let mut out = String::new();
    let mut i: usize = from;
    while i < to
        invariant
            from <= i <= to <= chars@.len(),
            out@ == chars@.subrange(from as int, i as int),
        decreases to - i,
    {
        out.push(chars[i]);
        i = i + 1;
        assert(chars@.subrange(from as int, i as int) == chars@.subrange(from as int, i - 1).push(
            chars@[i - 1],
        ));
    }
    out
}

/// Stripping a text keeps a run of it whose ends are not stripped characters,
/// and leaves out only stripped characters on either side of it.
pub proof fn lemma_strip_start(s: Seq<char>, strip: Strip) -> (from: int)
    ensures
        0 <= from <= s.len(),
        strip_start(s, strip) == s.skip(from),
        from < s.len() ==> !strip.removes(s[from]),
        forall|i: int| 0 <= i < from ==> strip.removes(#[trigger] s[i]),
    decreases s.len(),
{
    if s.len() > 0 && strip.removes(s[0]) {
        let rest = lemma_strip_start(s.drop_first(), strip);
        assert(s.drop_first().skip(rest) == s.skip(rest + 1));
        assert forall|i: int| 0 <= i < rest + 1 implies strip.removes(#[trigger] s[i]) by {
            if i > 0 {
                assert(s.drop_first()[i - 1] == s[i]);
            }
        }
        rest + 1
    } else {
        assert(s.skip(0) == s);
        0
    }
}

/// As [`lemma_strip_start`], for the end of a text.
pub proof fn lemma_strip_end(s: Seq<char>, strip: Strip) -> (to: int)
    ensures
        0 <= to <= s.len(),
        strip_end(s, strip) == s.take(to),
        0 < to ==> !strip.removes(s[to - 1]),
        forall|i: int| to <= i < s.len() ==> strip.removes(#[trigger] s[i]),
    decreases s.len(),
{
    if s.len() > 0 && strip.removes(s.last()) {
        let to = lemma_strip_end(s.drop_last(), strip);
        assert(s.drop_last().take(to) == s.take(to));
        assert forall|i: int| to <= i < s.len() implies strip.removes(#[trigger] s[i]) by {
            if i < s.len() - 1 {
                assert(s.drop_last()[i] == s[i]);
            }
        }
        to
    } else {
        assert(s.take(s.len() as int) == s);
        s.len() as int
    }
}

/// Stripping takes off the stripped characters at the two ends of a text, and
/// nothing of what stands between them.
pub proof fn strip_keeps_the_middle(
    lead: Seq<char>,
    middle: Seq<char>,
    trail: Seq<char>,
    strip: Strip,
)
    requires
        forall|i: int| 0 <= i < lead.len() ==> strip.removes(#[trigger] lead[i]),
        forall|i: int| 0 <= i < trail.len() ==> strip.removes(#[trigger] trail[i]),
        middle.len() > 0 ==> !strip.removes(middle[0]) && !strip.removes(middle.last()),
    ensures
        stripped(lead + middle + trail, strip) == middle,
{
    let s = lead + middle + trail;
    let from = lemma_strip_start(s, strip);
    if middle.len() == 0 {
        if from < s.len() {
            if from < lead.len() {
                assert(s[from] == lead[from]);
            } else {
                assert(s[from] == trail[from - lead.len()]);
            }
        }
        assert(s.skip(from) =~= Seq::<char>::empty());
        assert(strip_end(Seq::empty(), strip) == Seq::<char>::empty());
        assert(middle =~= Seq::<char>::empty());
    } else {
        assert(s[lead.len() as int] == middle[0]);
        if from < lead.len() {
            assert(s[from] == lead[from]);
        }
        assert(from == lead.len());
        let rest = s.skip(from);
        assert(rest =~= middle + trail);
        let to = lemma_strip_end(rest, strip);
        assert(rest[middle.len() - 1] == middle.last());
        if to > middle.len() {
            assert(rest[to - 1] == trail[to - 1 - middle.len()]);
        }
        assert(to == middle.len());
        assert(rest.take(to) =~= middle);
    }
}

/// Trimming takes off the white space at the two ends of a text, and nothing of
/// what stands between, however long it is.
pub proof fn trim_keeps_the_middle(lead: Seq<char>, middle: Seq<char>, trail: Seq<char>)
    requires
        forall|i: int| 0 <= i < lead.len() ==> is_white_space_char(#[trigger] lead[i]),
        forall|i: int| 0 <= i < trail.len() ==> is_white_space_char(#[trigger] trail[i]),
        middle.len() > 0 ==> !is_white_space_char(middle[0]) && !is_white_space_char(middle.last()),
    ensures
        trimmed(lead + middle + trail) == middle,
{
    strip_keeps_the_middle(lead, middle, trail, Strip::WhiteSpace);
}

/// A text is its trimmed form with white space before and behind it.
pub proof fn trimmed_off_is_white_space(s: Seq<char>) -> (ends: (Seq<char>, Seq<char>))
    ensures
        s == ends.0 + trimmed(s) + ends.1,
        forall|i: int| 0 <= i < ends.0.len() ==> is_white_space_char(#[trigger] ends.0[i]),
        forall|i: int| 0 <= i < ends.1.len() ==> is_white_space_char(#[trigger] ends.1[i]),
        trimmed(s).len() > 0 ==> !is_white_space_char(trimmed(s)[0]) && !is_white_space_char(
            trimmed(s).last(),
        ),
{
    let from = lemma_strip_start(s, Strip::WhiteSpace);
    let rest = s.skip(from);
    let to = lemma_strip_end(rest, Strip::WhiteSpace);
    let lead = s.take(from);
    let trail = rest.skip(to);
    assert(s =~= lead + rest.take(to) + trail);
    if to > 0 {
        assert(rest[0] == s[from]);
    }
    assert forall|i: int| 0 <= i < trail.len() implies is_white_space_char(#[trigger] trail[i]) by {
        assert(trail[i] == rest[to + i]);
    }
    (lead, trail)
}

/// The characters of `chars`, stripped at both ends.
pub fn strip_chars(chars: &Vec<char>, strip: Strip) -> (r: Vec<char>)
    ensures
        r@ == stripped(chars@, strip),
{
    let n: usize = chars.len();
    let mut from: usize = 0;
    assert(chars@.skip(0) == chars@);
    while from < n && strip.strips(chars[from])
        invariant
            from <= n == chars@.len(),
            strip_start(chars@, strip) == strip_start(chars@.skip(from as int), strip),
        decreases n - from,
    {
        assert(chars@.skip(from as int).drop_first() == chars@.skip(from + 1));
        from = from + 1;
    }
    let ghost head = strip_start(chars@, strip);
    assert(head == chars@.skip(from as int));
    let mut to: usize = n;
    assert(head.take(head.len() as int) == head);
    while from < to && strip.strips(chars[to - 1])
        invariant
            from <= to <= n == chars@.len(),
            head == chars@.skip(from as int),
            strip_end(head, strip) == strip_end(head.take(to - from), strip),
        decreases to - from,
    {
        assert(head.take(to - from).last() == chars@[to - 1]);
        assert(head.take(to - from).drop_last() == head.take(to - 1 - from));
        to = to - 1;
    }
    assert(strip_end(head, strip) == head.take(to - from)) by {
        if from < to {
            assert(head.take(to - from).last() == chars@[to - 1]);
        }
    }
    let mut out: Vec<char> = Vec::new();
    let mut i: usize = from;
    while i < to
        invariant
            from <= i <= to <= n == chars@.len(),
            out@ == chars@.subrange(from as int, i as int),
        decreases to - i,
    {
        out.push(chars[i]);
        i = i + 1;
    }
    assert(head.take(to - from) == chars@.subrange(from as int, to as int));
    out
}

/// The text made of the characters `chars`.
pub fn text_from(chars: &Vec<char>) -> (r: String)
    ensures
        r@ == chars@,
{
    assert(chars@.subrange(0, chars@.len() as int) == chars@);
    text_of(chars, 0, chars.len())
}

/// `s` without white space at either end.
pub fn trim(s: &str) -> (r: String)
    ensures
        r@ == trimmed(s@),
{
    text_from(&strip_chars(&chars_of(s), Strip::WhiteSpace))
}

/// Whether `s` holds nothing but white space.
pub fn is_blank(s: &str) -> (r: bool)
    ensures
        r == (trimmed(s@).len() == 0),
        r == (forall|i: int| 0 <= i < s@.len() ==> is_white_space_char(#[trigger] s@[i])),
{
    let kept: Vec<char> = strip_chars(&chars_of(s), Strip::WhiteSpace);
    proof {
        let from = lemma_strip_start(s@, Strip::WhiteSpace);
        let head = s@.skip(from);
        let to = lemma_strip_end(head, Strip::WhiteSpace);
        if from < s@.len() {
            assert(head[0] == s@[from]);
            assert(to > 0);
        }
    }
    kept.len() == 0
}

/// Whether `chars` ends in `suffix`.
pub fn ends_with(chars: &Vec<char>, suffix: &str) -> (r: bool)
    ensures
        r == suffix@.is_suffix_of(chars@),
{
    let tail: Vec<char> = chars_of(suffix);
    if tail.len() > chars.len() {
        return false;
    }
    let from: usize = chars.len() - tail.len();
    let ghost end = chars@.subrange(from as int, chars@.len() as int);
    let mut i: usize = 0;
    while i < tail.len()
        invariant
            i <= tail@.len(),
            from + tail.len() == chars.len(),
            tail@ == suffix@,
            end == chars@.subrange(from as int, chars@.len() as int),
            forall|j: int| 0 <= j < i ==> end[j] == #[trigger] tail@[j],
        decreases tail@.len() - i,
    {
        if chars[from + i] != tail[i] {
            assert(end[i as int] != suffix@[i as int]);
            return false;
        }
        i = i + 1;
    }
    assert(suffix@ =~= end);
    true
}

/// Whether `chars` begins with `prefix`.
pub fn starts_with(chars: &Vec<char>, prefix: &str) -> (r: bool)
    ensures
        r == prefix@.is_prefix_of(chars@),
{
    let head: Vec<char> = chars_of(prefix);
    if head.len() > chars.len() {
        return false;
    }
    let ghost start = chars@.subrange(0, head@.len() as int);
    let mut i: usize = 0;
    while i < head.len()
        invariant
            i <= head@.len(),
            head@.len() <= chars@.len(),
            head@ == prefix@,
            start == chars@.subrange(0, head@.len() as int),
            forall|j: int| 0 <= j < i ==> start[j] == #[trigger] head@[j],
        decreases head@.len() - i,
    {
        if chars[i] != head[i] {
            assert(start[i as int] != prefix@[i as int]);
            return false;
        }
        i = i + 1;
    }
    assert(prefix@ =~= start);
    true
}

// -------------------------------------------------------------------- splitting
/// The parts of `s` between the separators.
pub open spec fn split_on(s: Seq<char>, sep: char) -> Seq<Seq<char>>
    decreases s.len(),
{
    if s.len() == 0 {
        seq![Seq::empty()]
    } else {
        let before = split_on(s.drop_last(), sep);
        if s.last() == sep {
            before.push(Seq::empty())
        } else {
            before.drop_last().push(before.last().push(s.last()))
        }
    }
}

/// The parts of a text between the separators.
pub fn split(chars: &Vec<char>, sep: char) -> (r: Vec<String>)
    ensures
        text_views(r@) == split_on(chars@, sep),
{
    let mut parts: Vec<String> = Vec::new();
    let mut part = String::new();
    let mut i: usize = 0;
    assert(chars@.take(0) == Seq::<char>::empty());
    assert(split_on(Seq::empty(), sep) == text_views(parts@).push(part@));
    while i < chars.len()
        invariant
            i <= chars@.len(),
            split_on(chars@.take(i as int), sep) == text_views(parts@).push(part@),
        decreases chars@.len() - i,
    {
        let c: char = chars[i];
        let ghost before = text_views(parts@);
        let ghost last = part@;
        assert(chars@.take(i + 1).drop_last() == chars@.take(i as int));
        assert(before.push(last).drop_last() == before);
        if c == sep {
            parts.push(part);
            part = String::new();
            assert(text_views(parts@) == before.push(last));
        } else {
            part.push(c);
        }
        i = i + 1;
    }
    assert(chars@.take(chars@.len() as int) == chars@);
    let ghost before = text_views(parts@);
    let ghost last = part@;
    parts.push(part);
    assert(text_views(parts@) == before.push(last));
    parts
}

/// A text without the separator is one part.
pub proof fn unsplit(s: Seq<char>, sep: char)
    requires
        !s.contains(sep),
    ensures
        split_on(s, sep) == seq![s],
    decreases s.len(),
{
    if s.len() > 0 {
        let before = s.drop_last();
        assert(s.last() == s[s.len() - 1]);
        assert(forall|i: int| 0 <= i < before.len() ==> before[i] == s[i]);
        unsplit(before, sep);
        assert(s == before.push(s.last()));
    } else {
        assert(s == Seq::<char>::empty());
    }
}

/// What stands on either side of a separator is split by itself.
pub proof fn split_at_separator(a: Seq<char>, b: Seq<char>, sep: char)
    ensures
        split_on(a.push(sep) + b, sep) == split_on(a, sep) + split_on(b, sep),
        split_on(b, sep).len() > 0,
    decreases b.len(),
{
    let whole = a.push(sep) + b;
    if b.len() == 0 {
        assert(whole == a.push(sep));
        assert(whole.drop_last() == a);
        assert(split_on(a, sep).push(Seq::empty()) == split_on(a, sep) + seq![Seq::<char>::empty()]);
    } else {
        let rest = b.drop_last();
        split_at_separator(a, rest, sep);
        assert(whole.drop_last() == a.push(sep) + rest);
        let x = split_on(a, sep);
        let y = split_on(rest, sep);
        assert((x + y).last() == y.last());
        assert((x + y).drop_last() == x + y.drop_last());
        if b.last() == sep {
            assert((x + y).push(Seq::empty()) == x + y.push(Seq::empty()));
        } else {
            let end = y.last().push(b.last());
            assert((x + y.drop_last()).push(end) == x + y.drop_last().push(end));
        }
    }
}

// ---------------------------------------------------------------------- joining
/// The two texts one after the other.
pub fn join(a: &str, b: &str) -> (r: String)
    ensures
        r@ == a@ + b@,
{
    let mut out: String = a.to_owned();
    out.append(b);
    out
}

/// The decimal digit of the value `d`.
pub open spec fn digit(d: nat) -> char {
    ('0' as u32 + d) as char
}

/// The decimal digits of `n`, without leading zeros.
pub open spec fn decimal(n: nat) -> Seq<char>
    decreases n,
{
    if n < 10 {
        seq![digit(n)]
    } else {
        decimal(n / 10).push(digit(n % 10))
    }
}

/// The decimal digits of `n`, with a leading zero where there would be one
/// digit alone.
pub open spec fn two_digits(n: nat) -> Seq<char> {
    if n < 10 {
        seq!['0', digit(n)]
    } else {
        decimal(n)
    }
}

fn digit_char(d: u64) -> (r: char)
    requires
        d < 10,
    ensures
        r == digit(d as nat),
{
    (0x30 + d as u8) as char
}

fn push_decimal(out: &mut String, n: u64)
    ensures
        final(out)@ == old(out)@ + decimal(n as nat),
    decreases n,
{
    if n < 10 {
        out.push(digit_char(n));
    } else {
        push_decimal(out, n / 10);
        out.push(digit_char(n % 10));
        assert(final(out)@ == old(out)@ + decimal(n as nat));
    }
}

/// The decimal digits of `n`.
pub fn decimal_text(n: u64) -> (r: String)
    ensures
        r@ == decimal(n as nat),
{
    let mut out = String::new();
    push_decimal(&mut out, n);
    assert(out@ == decimal(n as nat));
    out
}

/// The decimal digits of `n`, at least two of them.
pub fn two_digit_text(n: u64) -> (r: String)
    ensures
        r@ == two_digits(n as nat),
{
    let mut out = String::new();
    if n < 10 {
        out.push('0');
    }
    push_decimal(&mut out, n);
    assert(out@ == two_digits(n as nat));
    out
}

/// Different numbers have different digits.
pub proof fn decimal_is_injective(a: nat, b: nat)
    requires
        decimal(a) == decimal(b),
    ensures
        a == b,
    decreases a,
{
    lemma_decimal_len(a);
    lemma_decimal_len(b);
    assert(digit(a % 10) as u32 == 48 + a % 10);
    assert(digit(b % 10) as u32 == 48 + b % 10);
    if a < 10 && b < 10 {
        assert(decimal(a)[0] == digit(a));
        assert(decimal(b)[0] == digit(b));
        assert(a == b);
    } else if a >= 10 && b >= 10 {
        assert(decimal(a).drop_last() == decimal(a / 10));
        assert(decimal(b).drop_last() == decimal(b / 10));
        assert(decimal(a).last() == digit(a % 10));
        assert(decimal(b).last() == digit(b % 10));
        decimal_is_injective(a / 10, b / 10);
        assert(a % 10 == b % 10);
        assert(a == b);
    }
}

/// A number in decimal is written with decimal digits.
pub proof fn decimal_is_digits(n: nat)
    ensures
        decimal(n).len() > 0,
        forall|i: int| 0 <= i < decimal(n).len() ==> '0' <= #[trigger] decimal(n)[i] <= '9',
    decreases n,
{
    assert(digit(n % 10) as u32 == 48 + n % 10);
    if n >= 10 {
        decimal_is_digits(n / 10);
    }
}

/// A number below a hundred takes two digits, which write it.
pub proof fn two_digits_write_the_number(n: nat)
    requires
        n < 100,
    ensures
        two_digits(n).len() == 2,
        forall|i: int| 0 <= i < 2 ==> '0' <= #[trigger] two_digits(n)[i] <= '9',
        decimal_value(two_digits(n)) == n,
{
    decimal_is_digits(n);
    decimal_round_trip(n);
    assert(digit(n % 10) as u32 == 48 + n % 10);
    if n < 10 {
        let s = two_digits(n);
        assert(s.drop_last() =~= seq!['0']);
        assert(s.drop_last().drop_last() =~= Seq::<char>::empty());
        reveal_with_fuel(decimal_value, 3);
    } else {
        assert(decimal(n / 10) == seq![digit(n / 10)]);
    }
}

/// The number that decimal digits write.
pub open spec fn decimal_value(s: Seq<char>) -> nat
    decreases s.len(),
{
    if s.len() == 0 {
        0
    } else {
        10 * decimal_value(s.drop_last()) + (s.last() as u32 - '0' as u32) as nat
    }
}

/// Every digit counts ten times as much as the one behind it, and zeros before a
/// number count nothing.
pub proof fn digits_count_by_place(s: Seq<char>, d: nat)
    requires
        d < 10,
    ensures
        decimal_value(s.push(digit(d))) == 10 * decimal_value(s) + d,
        decimal_value(seq!['0'] + s) == decimal_value(s),
    decreases s.len(),
{
    assert(digit(d) as u32 == 48 + d);
    assert(s.push(digit(d)).drop_last() =~= s);
    let padded = seq!['0'] + s;
    if s.len() == 0 {
        assert(padded.drop_last() =~= s);
    } else {
        digits_count_by_place(s.drop_last(), d);
        assert(padded.drop_last() =~= seq!['0'] + s.drop_last());
        assert(padded.last() == s.last());
    }
}

/// Reading back a number in decimal gives the number.
pub proof fn decimal_round_trip(n: nat)
    ensures
        decimal_value(decimal(n)) == n,
    decreases n,
{
    assert(digit(n % 10) as u32 == 48 + n % 10);
    if n < 10 {
        assert(decimal(n).drop_last() == Seq::<char>::empty());
        assert(decimal_value(Seq::empty()) == 0);
    } else {
        decimal_round_trip(n / 10);
        assert(decimal(n).drop_last() == decimal(n / 10));
    }
}

proof fn lemma_decimal_len(n: nat)
    ensures
        decimal(n).len() >= 1,
        n < 10 <==> decimal(n).len() == 1,
    decreases n,
{
    if n >= 10 {
        lemma_decimal_len(n / 10);
    }
}

// ----------------------------------------------------------------------- order
/// Whether `a` comes before `b`: at the first difference it has the smaller
/// character, or it ends first.
pub open spec fn text_before(a: Seq<char>, b: Seq<char>) -> bool
    decreases a.len(),
{
    if b.len() == 0 {
        false
    } else if a.len() == 0 {
        true
    } else if a[0] != b[0] {
        a[0] < b[0]
    } else {
        text_before(a.drop_first(), b.drop_first())
    }
}

/// No text comes before itself.
pub proof fn text_order_is_irreflexive(a: Seq<char>)
    ensures
        !text_before(a, a),
    decreases a.len(),
{
    if a.len() > 0 {
        text_order_is_irreflexive(a.drop_first());
    }
}

/// Of two different texts one comes before the other.
pub proof fn text_order_is_total(a: Seq<char>, b: Seq<char>)
    ensures
        a == b || text_before(a, b) || text_before(b, a),
    decreases a.len(),
{
    if a.len() > 0 && b.len() > 0 {
        if a[0] == b[0] {
            text_order_is_total(a.drop_first(), b.drop_first());
            if a.drop_first() == b.drop_first() {
                assert(a =~= seq![a[0]] + a.drop_first());
                assert(b =~= seq![b[0]] + b.drop_first());
            }
        }
    } else if a.len() == 0 && b.len() == 0 {
        assert(a =~= b);
    }
}

/// What comes before a text comes before all that follow it.
pub proof fn text_order_is_transitive(a: Seq<char>, b: Seq<char>, c: Seq<char>)
    requires
        text_before(a, b),
        text_before(b, c),
    ensures
        text_before(a, c),
    decreases a.len(),
{
    if a.len() > 0 && a[0] == b[0] && b[0] == c[0] {
        text_order_is_transitive(a.drop_first(), b.drop_first(), c.drop_first());
    }
}

/// Whether `a` comes before `b`.
pub fn is_before(a: &str, b: &str) -> (r: bool)
    ensures
        r == text_before(a@, b@),
{
    let x: Vec<char> = chars_of(a);
    let y: Vec<char> = chars_of(b);
    let mut i: usize = 0;
    assert(x@.skip(0) == x@ && y@.skip(0) == y@);
    while i < x.len() && i < y.len()
        invariant
            i <= x@.len(),
            i <= y@.len(),
            x@ == a@,
            y@ == b@,
            text_before(a@, b@) == text_before(x@.skip(i as int), y@.skip(i as int)),
        decreases x@.len() - i,
    {
        if x[i] != y[i] {
            return x[i] < y[i];
        }
        assert(x@.skip(i as int).drop_first() == x@.skip(i + 1));
        assert(y@.skip(i as int).drop_first() == y@.skip(i + 1));
        i = i + 1;
    }
    i < y.len()
}

/// At the first difference of two texts the smaller character decides.
pub proof fn first_difference_decides(
    start: Seq<char>,
    a: char,
    rest_a: Seq<char>,
    b: char,
    rest_b: Seq<char>,
)
    requires
        a < b,
    ensures
        text_before(start.push(a) + rest_a, start.push(b) + rest_b),
    decreases start.len(),
{
    let x = start.push(a) + rest_a;
    let y = start.push(b) + rest_b;
    if start.len() > 0 {
        first_difference_decides(start.drop_first(), a, rest_a, b, rest_b);
        assert(x.drop_first() =~= start.drop_first().push(a) + rest_a);
        assert(y.drop_first() =~= start.drop_first().push(b) + rest_b);
        assert(x[0] == y[0]);
    } else {
        assert(x[0] == a);
        assert(y[0] == b);
    }
}

/// A text comes before every longer one that begins with it.
pub proof fn beginning_comes_first(start: Seq<char>, rest: Seq<char>)
    requires
        rest.len() > 0,
    ensures
        text_before(start, start + rest),
    decreases start.len(),
{
    if start.len() > 0 {
        beginning_comes_first(start.drop_first(), rest);
        assert((start + rest).drop_first() =~= start.drop_first() + rest);
    }
}

/// Whether each of the texts comes before all that follow it.
pub open spec fn is_ascending(texts: Seq<Seq<char>>) -> bool {
    forall|i: int, j: int|
        0 <= i < j < texts.len() ==> text_before(#[trigger] texts[i], #[trigger] texts[j])
}

/// There is one way to put given texts in ascending order.
pub proof fn ascending_order_is_unique(a: Seq<Seq<char>>, b: Seq<Seq<char>>)
    requires
        is_ascending(a),
        is_ascending(b),
        forall|t: Seq<char>| #[trigger] a.contains(t) <==> b.contains(t),
    ensures
        a == b,
    decreases a.len(),
{
    if a.len() == 0 {
        if b.len() > 0 {
            assert(b.contains(b[0]));
            assert(a.contains(b[0]));
        }
        assert(a =~= b);
    } else {
        assert(a.contains(a[0]));
        assert(b.contains(a[0]));
        lemma_first_is_least(a, b);
        lemma_first_is_least(b, a);
        text_order_is_total(a[0], b[0]);
        let x = a.drop_first();
        let y = b.drop_first();
        assert forall|t: Seq<char>| #[trigger] x.contains(t) <==> y.contains(t) by {
            lemma_rest_contains(a, t);
            lemma_rest_contains(b, t);
        }
        assert(is_ascending(x));
        assert(is_ascending(y));
        ascending_order_is_unique(x, y);
        assert(a =~= seq![a[0]] + x);
        assert(b =~= seq![b[0]] + y);
    }
}

/// No element of `b` comes before the first of `a`, where both hold the same.
proof fn lemma_first_is_least(a: Seq<Seq<char>>, b: Seq<Seq<char>>)
    requires
        is_ascending(a),
        a.len() > 0,
        b.len() > 0,
        forall|t: Seq<char>| #[trigger] b.contains(t) ==> a.contains(t),
    ensures
        !text_before(b[0], a[0]),
{
    assert(b.contains(b[0]));
    let k = choose|k: int| 0 <= k < a.len() && a[k] == b[0];
    text_order_is_irreflexive(a[0]);
    if k > 0 && text_before(b[0], a[0]) {
        text_order_is_transitive(a[0], a[k], a[0]);
    }
}

proof fn lemma_rest_contains(a: Seq<Seq<char>>, t: Seq<char>)
    requires
        is_ascending(a),
        a.len() > 0,
    ensures
        a.drop_first().contains(t) <==> a.contains(t) && t != a[0],
{
    let x = a.drop_first();
    if x.contains(t) {
        let k = choose|k: int| 0 <= k < x.len() && x[k] == t;
        assert(a[k + 1] == t);
        text_order_is_irreflexive(t);
    }
    if a.contains(t) && t != a[0] {
        let k = choose|k: int| 0 <= k < a.len() && a[k] == t;
        assert(x[k - 1] == t);
    }
}

/// The views of some texts.
pub open spec fn text_views(texts: Seq<String>) -> Seq<Seq<char>> {
    texts.map_values(|t: String| t@)
}

/// Puts `text` in its place among ascending texts, unless it is there.
pub fn insert_ascending(texts: &mut Vec<String>, text: String)
    requires
        is_ascending(text_views(old(texts)@)),
    ensures
        is_ascending(text_views(final(texts)@)),
        forall|t: Seq<char>| #[trigger]
            text_views(final(texts)@).contains(t) <==> text_views(old(texts)@).contains(t) || t == text@,
{
    let ghost before = text_views(texts@);
    let mut i: usize = 0;
    while i < texts.len() && is_before(texts[i].as_str(), text.as_str())
        invariant
            texts@ == old(texts)@,
            before == text_views(texts@),
            i <= texts@.len(),
            forall|j: int| 0 <= j < i ==> text_before(#[trigger] before[j], text@),
        decreases texts@.len() - i,
    {
        i = i + 1;
    }
    if i < texts.len() && texts[i] == text {
        assert(before[i as int] == text@);
        return;
    }
    proof {
        if i < before.len() {
            text_order_is_total(before[i as int], text@);
        }
        assert forall|j: int| i <= j < before.len() implies text_before(
            text@,
            #[trigger] before[j],
        ) by {
            if j > i {
                text_order_is_transitive(text@, before[i as int], before[j]);
            }
        }
    }
    let ghost added = text@;
    texts.insert(i, text);
    proof {
        let after = text_views(texts@);
        assert(after =~= before.insert(i as int, added));
        assert forall|t: Seq<char>| #[trigger] after.contains(t) <==> before.contains(t) || t
            == added by {
            if before.contains(t) {
                let k = choose|k: int| 0 <= k < before.len() && before[k] == t;
                assert(after[if k < i {
                    k
                } else {
                    k + 1
                }] == t);
            }
            if t == added {
                assert(after[i as int] == t);
            }
            if after.contains(t) {
                let k = choose|k: int| 0 <= k < after.len() && after[k] == t;
                if k < i {
                    assert(before[k] == t);
                } else if k > i {
                    assert(before[k - 1] == t);
                }
            }
        }
    }
}

} // verus!
