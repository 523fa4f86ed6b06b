//! The text exposition format and its parser.
//!
//! A rendering lists every registered metric in registration order: a
//! `# HELP` line, a `# TYPE` line, and — once the metric has a value — a
//! sample line `name value`, with the value in fixed-point notation.  The
//! stream ends with the `# EOF` marker line.  The parser reads any such
//! text back line by line, skipping comment lines and malformed lines, and
//! yields the `(name, value)` samples in order; the round-trip lemma shows
//! that parsing a rendering returns exactly the values last set.

use vstd::prelude::*;
use vstd::string::*;
use crate::decimal::{
    all_digits, dec_str, is_digit, digit_char, digit_val, lemma_all_digits_not_contains,
    lemma_dec_str_digits, lemma_parse_dec_str, milli_str, pad3, parse_digits,
};
use crate::store::{Metric, MetricKind};

verus! {

/// Index of the first occurrence of `c` in `s`, or `s.len()` if absent.
pub open spec fn find_char(s: Seq<char>, c: char) -> int
    decreases s.len(),
{
    if s.len() == 0 {
        0
    } else if s[0] == c {
        0
    } else {
        1 + find_char(s.subrange(1, s.len() as int), c)
    }
}

/// The first occurrence of `c` in `a + b` falls past `a` when `a` is free
/// of `c`.
pub proof fn lemma_find_char_append(a: Seq<char>, b: Seq<char>, c: char)
    requires
        !a.contains(c),
    ensures
        find_char(a + b, c) == a.len() + find_char(b, c),
    decreases a.len(),
{
    if a.len() == 0 {
        assert(a + b =~= b);
    } else {
        assert((a + b)[0] == a[0]);
        if a[0] == c {
            assert(a.contains(c)) by {
                assert(a[0] == c);
            }
        }
        let a1 = a.subrange(1, a.len() as int);
        if a1.contains(c) {
            let i = choose|i: int| 0 <= i < a1.len() && a1[i] == c;
            assert(a[i + 1] == c);
            assert(a.contains(c));
        }
        assert((a + b).subrange(1, (a + b).len() as int) =~= a1 + b);
        lemma_find_char_append(a1, b, c);
    }
}

/// Concatenation keeps freedom from `c`.
pub proof fn lemma_append_not_contains(a: Seq<char>, b: Seq<char>, c: char)
    requires
        !a.contains(c),
        !b.contains(c),
    ensures
        !(a + b).contains(c),
{
    if (a + b).contains(c) {
        let i = choose|i: int| 0 <= i < (a + b).len() && (a + b)[i] == c;
        if i < a.len() {
            assert(a[i] == c);
            assert(a.contains(c));
        } else {
            assert(b[i - a.len()] == c);
            assert(b.contains(c));
        }
    }
}

/// A character allowed in a metric name.
pub open spec fn is_name_char(c: char) -> bool {
    ('a' as int <= c as int && c as int <= 'z' as int) || ('A' as int <= c as int && c as int
        <= 'Z' as int) || is_digit(c) || c == '_' || c == ':'
}

/// A valid metric name: nonempty, made of letters, digits, underscores and
/// colons, not starting with a digit.
pub open spec fn valid_name(s: Seq<char>) -> bool {
    &&& s.len() > 0
    &&& forall|i: int| 0 <= i < s.len() ==> is_name_char(#[trigger] s[i])
    &&& !is_digit(s[0])
}

/// A valid help text: it must fit on one comment line, so it holds no
/// newline.
pub open spec fn valid_help(s: Seq<char>) -> bool {
    forall|i: int| 0 <= i < s.len() ==> #[trigger] s[i] != '\n'
}

/// A valid name contains neither separator of the exposition format.
pub proof fn lemma_valid_name_chars(s: Seq<char>)
    requires
        valid_name(s),
    ensures
        !s.contains('\n'),
        !s.contains(' '),
        s[0] != '#',
{
    if s.contains('\n') {
        let i = choose|i: int| 0 <= i < s.len() && s[i] == '\n';
        assert(is_name_char(s[i]));
    }
    if s.contains(' ') {
        let i = choose|i: int| 0 <= i < s.len() && s[i] == ' ';
        assert(is_name_char(s[i]));
    }
    assert(is_name_char(s[0]));
}

/// The value part of a well-formed sample line: at least one digit, a dot,
/// exactly three fractional digits.
pub open spec fn wf_milli(s: Seq<char>) -> bool {
    let i = find_char(s, '.');
    &&& 1 <= i
    &&& i + 4 == s.len()
    &&& all_digits(s.subrange(0, i))
    &&& all_digits(s.subrange(i + 1, s.len() as int))
}

/// Value in thousandths denoted by a well-formed sample value.
pub open spec fn milli_val(s: Seq<char>) -> nat {
    let i = find_char(s, '.');
    parse_digits(s.subrange(0, i)) * 1000 + parse_digits(s.subrange(i + 1, s.len() as int))
}

/// The fixed-point notation is well formed and parses back to the value it
/// was produced from.
pub proof fn lemma_milli_round_trip(v: nat)
    ensures
        wf_milli(milli_str(v)),
        milli_val(milli_str(v)) == v,
        !milli_str(v).contains('\n'),
        !milli_str(v).contains(' '),
        milli_str(v).len() > 0,
        milli_str(v)[0] != '#',
{
    let a = dec_str(v / 1000);
    let f = v % 1000;
    let p = pad3(f);
    let m = milli_str(v);
    lemma_dec_str_digits(v / 1000);
    lemma_parse_dec_str(v / 1000);
    lemma_all_digits_not_contains(a, '.');
    assert(m =~= a + (seq!['.'] + p));
    assert((seq!['.'] + p)[0] == '.');
    lemma_find_char_append(a, seq!['.'] + p, '.');
    let i = find_char(m, '.');
    assert(i == a.len());
    assert(m.len() == a.len() + 4);
    assert(m.subrange(0, i) =~= a);
    assert(m.subrange(i + 1, m.len() as int) =~= p);
    assert(f < 1000);
    assert(is_digit(digit_char(f as int / 100)));
    assert(is_digit(digit_char((f as int / 10) % 10)));
    assert(is_digit(digit_char(f as int % 10)));
    assert(all_digits(p));
    // the three padded digits recombine to f
    let p2 = p.drop_last();
    let p1 = p2.drop_last();
    assert(p2 =~= seq![digit_char(f as int / 100), digit_char((f as int / 10) % 10)]);
    assert(p1 =~= seq![digit_char(f as int / 100)]);
    assert(p1.drop_last() =~= Seq::<char>::empty());
    assert(parse_digits(p1.drop_last()) == 0);
    assert(parse_digits(p1) == parse_digits(p1.drop_last()) * 10 + digit_val(p1.last()) as nat);
    assert(parse_digits(p2) == parse_digits(p2.drop_last()) * 10 + digit_val(p2.last()) as nat);
    assert(parse_digits(p) == parse_digits(p.drop_last()) * 10 + digit_val(p.last()) as nat);
    assert(digit_val(digit_char(f as int / 100)) == f as int / 100);
    assert(digit_val(digit_char((f as int / 10) % 10)) == (f as int / 10) % 10);
    assert(digit_val(digit_char(f as int % 10)) == f as int % 10);
    vstd::arithmetic::div_mod::lemma_fundamental_div_mod(f as int, 10);
    vstd::arithmetic::div_mod::lemma_fundamental_div_mod(f as int / 10, 10);
    vstd::arithmetic::div_mod::lemma_div_denominator(f as int, 10, 10);
    assert(parse_digits(p) == f);
    vstd::arithmetic::div_mod::lemma_fundamental_div_mod(v as int, 1000);
    assert(milli_val(m) == v);
    // character classes: digits and one dot, so no separator occurs
    assert(!p.contains('\n')) by {
        lemma_all_digits_not_contains(p, '\n');
    }
    assert(!p.contains(' ')) by {
        lemma_all_digits_not_contains(p, ' ');
    }
    lemma_all_digits_not_contains(a, '\n');
    lemma_all_digits_not_contains(a, ' ');
    lemma_append_not_contains(seq!['.'], p, '\n');
    lemma_append_not_contains(a, seq!['.'] + p, '\n');
    lemma_append_not_contains(seq!['.'], p, ' ');
    lemma_append_not_contains(a, seq!['.'] + p, ' ');
    assert(m[0] == a[0]);
    assert(is_digit(a[0]));
}

/// Entries contributed by one exposition line (given without its newline):
/// comment lines, blank lines and malformed lines contribute nothing; a
/// sample line contributes its `(name, value)` pair.
pub open spec fn classify_line(l: Seq<char>) -> Seq<(Seq<char>, nat)> {
    if l.len() == 0 || l[0] == '#' {
        seq![]
    } else {
        let i = find_char(l, ' ');
        if 0 <= i < l.len() {
            let name = l.subrange(0, i);
            let val = l.subrange(i + 1, l.len() as int);
            if name.len() > 0 && wf_milli(val) {
                seq![(name, milli_val(val))]
            } else {
                seq![]
            }
        } else {
            seq![]
        }
    }
}

/// Parse a text exposition into its `(name, value)` samples, in order.
pub open spec fn parse_exposition(t: Seq<char>) -> Seq<(Seq<char>, nat)>
    decreases t.len(),
{
    if t.len() == 0 {
        seq![]
    } else {
        let i = find_char(t, '\n');
        if 0 <= i < t.len() {
            classify_line(t.subrange(0, i)) + parse_exposition(t.subrange(i + 1, t.len() as int))
        } else {
            classify_line(t)
        }
    }
}

/// Parsing consumes one newline-terminated line at a time.
pub proof fn lemma_parse_line_step(l: Seq<char>, t: Seq<char>)
    requires
        !l.contains('\n'),
    ensures
        parse_exposition(l + seq!['\n'] + t) == classify_line(l) + parse_exposition(t),
{
    let w = l + seq!['\n'] + t;
    assert(w =~= l + (seq!['\n'] + t));
    assert((seq!['\n'] + t)[0] == '\n');
    lemma_find_char_append(l, seq!['\n'] + t, '\n');
    assert(find_char(w, '\n') == l.len());
    assert(w.len() == l.len() + 1 + t.len());
    assert(w.subrange(0, l.len() as int) =~= l);
    assert(w.subrange(l.len() as int + 1, w.len() as int) =~= t);
}

/// A sample line built from a valid name and a rendered value is read back
/// as exactly that pair.
pub proof fn lemma_classify_sample_line(name: Seq<char>, v: nat)
    requires
        valid_name(name),
    ensures
        classify_line(name + seq![' '] + milli_str(v)) == seq![(name, v)],
        !(name + seq![' '] + milli_str(v)).contains('\n'),
{
    let l = name + seq![' '] + milli_str(v);
    lemma_valid_name_chars(name);
    lemma_milli_round_trip(v);
    assert(l =~= name + (seq![' '] + milli_str(v)));
    assert((seq![' '] + milli_str(v))[0] == ' ');
    lemma_find_char_append(name, seq![' '] + milli_str(v), ' ');
    let i = find_char(l, ' ');
    assert(i == name.len());
    assert(l[0] == name[0]);
    assert(l.subrange(0, i) =~= name);
    assert(l.subrange(i + 1, l.len() as int) =~= milli_str(v));
    assert(classify_line(l) =~= seq![(name, v)]);
    lemma_append_not_contains(seq![' '], milli_str(v), '\n');
    lemma_append_not_contains(name, seq![' '] + milli_str(v), '\n');
}

pub open spec fn help_prefix() -> Seq<char> {
    seq!['#', ' ', 'H', 'E', 'L', 'P', ' ']
}

pub open spec fn type_prefix() -> Seq<char> {
    seq!['#', ' ', 'T', 'Y', 'P', 'E', ' ']
}

/// The end-of-stream marker line.
pub open spec fn eof_line() -> Seq<char> {
    seq!['#', ' ', 'E', 'O', 'F', '\n']
}

/// Name of a metric type in the exposition format.
pub open spec fn kind_str(k: MetricKind) -> Seq<char> {
    match k {
        MetricKind::Gauge => seq!['g', 'a', 'u', 'g', 'e'],
        MetricKind::Counter => seq!['c', 'o', 'u', 'n', 't', 'e', 'r'],
    }
}

pub open spec fn help_line(m: Metric) -> Seq<char> {
    help_prefix() + m.name@ + seq![' '] + m.help@ + seq!['\n']
}

pub open spec fn type_line(m: Metric) -> Seq<char> {
    type_prefix() + m.name@ + seq![' '] + kind_str(m.kind) + seq!['\n']
}

/// The sample line of a metric; a metric that was never set has none.
pub open spec fn sample_line(m: Metric) -> Seq<char> {
    match m.value_milli {
        Option::Some(v) => m.name@ + seq![' '] + milli_str(v as nat) + seq!['\n'],
        Option::None => seq![],
    }
}

/// Lines a single metric contributes to the rendering.
pub open spec fn metric_block(m: Metric) -> Seq<char> {
    help_line(m) + type_line(m) + sample_line(m)
}

pub open spec fn render_blocks(ms: Seq<Metric>) -> Seq<char>
    decreases ms.len(),
{
    if ms.len() == 0 {
        seq![]
    } else {
        metric_block(ms[0]) + render_blocks(ms.subrange(1, ms.len() as int))
    }
}

/// The full rendering of a metric sequence: every metric's block in order,
/// closed by the end-of-stream marker.
pub open spec fn render_spec(ms: Seq<Metric>) -> Seq<char> {
    render_blocks(ms) + eof_line()
}

/// The samples a metric sequence currently publishes: one `(name, value)`
/// pair per metric that has a value, in registration order.
pub open spec fn published(ms: Seq<Metric>) -> Seq<(Seq<char>, nat)>
    decreases ms.len(),
{
    if ms.len() == 0 {
        seq![]
    } else {
        (match ms[0].value_milli {
            Option::Some(v) => seq![(ms[0].name@, v as nat)],
            Option::None => seq![],
        }) + published(ms.subrange(1, ms.len() as int))
    }
}

/// Every metric of `ms` carries a valid name and help text.
pub open spec fn wf_names(ms: Seq<Metric>) -> bool {
    forall|i: int|
        0 <= i < ms.len() ==> valid_name(#[trigger] ms[i].name@) && valid_help(ms[i].help@)
}

/// Parsing one metric's block yields its published sample and moves on.
pub proof fn lemma_parse_block_step(m: Metric, t: Seq<char>)
    requires
        valid_name(m.name@),
        valid_help(m.help@),
    ensures
        parse_exposition(metric_block(m) + t) == (match m.value_milli {
            Option::Some(v) => seq![(m.name@, v as nat)],
            Option::None => seq![],
        }) + parse_exposition(t),
{
    lemma_valid_name_chars(m.name@);
    let hc = help_prefix() + m.name@ + seq![' '] + m.help@;
    let tc = type_prefix() + m.name@ + seq![' '] + kind_str(m.kind);
    assert(!help_prefix().contains('\n'));
    assert(!type_prefix().contains('\n'));
    assert(!seq![' '].contains('\n'));
    assert(!m.help@.contains('\n'));
    lemma_append_not_contains(help_prefix(), m.name@, '\n');
    lemma_append_not_contains(help_prefix() + m.name@, seq![' '], '\n');
    lemma_append_not_contains(help_prefix() + m.name@ + seq![' '], m.help@, '\n');
    assert(!kind_str(m.kind).contains('\n')) by {
        if kind_str(m.kind).contains('\n') {
            let i = choose|i: int|
                0 <= i < kind_str(m.kind).len() && kind_str(m.kind)[i] == '\n';
        }
    }
    lemma_append_not_contains(type_prefix(), m.name@, '\n');
    lemma_append_not_contains(type_prefix() + m.name@, seq![' '], '\n');
    lemma_append_not_contains(type_prefix() + m.name@ + seq![' '], kind_str(m.kind), '\n');
    // split off the help line
    let r1 = tc + seq!['\n'] + sample_line(m) + t;
    assert(metric_block(m) + t =~= hc + seq!['\n'] + r1);
    lemma_parse_line_step(hc, r1);
    assert(hc[0] == '#');
    assert(classify_line(hc) =~= seq![]);
    // split off the type line
    let r2 = sample_line(m) + t;
    assert(r1 =~= tc + seq!['\n'] + r2);
    lemma_parse_line_step(tc, r2);
    assert(tc[0] == '#');
    assert(classify_line(tc) =~= seq![]);
    // the sample line, when there is one
    match m.value_milli {
        Option::Some(v) => {
            let sc = m.name@ + seq![' '] + milli_str(v as nat);
            assert(r2 =~= sc + seq!['\n'] + t);
            lemma_classify_sample_line(m.name@, v as nat);
            lemma_parse_line_step(sc, t);
            assert(parse_exposition(metric_block(m) + t) =~= seq![(m.name@, v as nat)]
                + parse_exposition(t));
        },
        Option::None => {
            assert(r2 =~= t);
            assert(parse_exposition(metric_block(m) + t) =~= parse_exposition(t));
        },
    }
}

/// Round trip of the exposition format: parsing a rendering returns
/// exactly the samples the metrics publish — same names, same values, in
/// the same order.
pub proof fn lemma_render_parse_round_trip(ms: Seq<Metric>)
    requires
        wf_names(ms),
    ensures
        parse_exposition(render_spec(ms)) == published(ms),
    decreases ms.len(),
{
    if ms.len() == 0 {
        let ec = seq!['#', ' ', 'E', 'O', 'F'];
        assert(!ec.contains('\n')) by {
            if ec.contains('\n') {
                let i = choose|i: int| 0 <= i < ec.len() && ec[i] == '\n';
            }
        }
        assert(render_spec(ms) =~= ec + seq!['\n'] + Seq::<char>::empty());
        lemma_parse_line_step(ec, Seq::<char>::empty());
        assert(classify_line(ec) =~= seq![]);
        assert(parse_exposition(Seq::<char>::empty()) =~= Seq::<(Seq<char>, nat)>::empty());
        assert(parse_exposition(render_spec(ms)) =~= published(ms));
    } else {
        let rest = ms.subrange(1, ms.len() as int);
        assert(wf_names(rest)) by {
            assert(forall|i: int| 0 <= i < rest.len() ==> rest[i] == ms[i + 1]);
        }
        assert(render_spec(ms) =~= metric_block(ms[0]) + (render_blocks(rest) + eof_line()));
        lemma_parse_block_step(ms[0], render_blocks(rest) + eof_line());
        lemma_render_parse_round_trip(rest);
        assert(parse_exposition(render_spec(ms)) =~= published(ms));
    }
}

/// Publishing distributes over concatenation of metric sequences.
pub proof fn lemma_published_append(a: Seq<Metric>, b: Seq<Metric>)
    ensures
        published(a + b) == published(a) + published(b),
    decreases a.len(),
{
    if a.len() == 0 {
        assert(a + b =~= b);
        assert(published(a) =~= Seq::<(Seq<char>, nat)>::empty());
        assert(published(a) + published(b) =~= published(b));
    } else {
        let a1 = a.subrange(1, a.len() as int);
        assert((a + b)[0] == a[0]);
        assert((a + b).subrange(1, (a + b).len() as int) =~= a1 + b);
        lemma_published_append(a1, b);
        assert(published(a + b) =~= published(a) + published(b));
    }
}

/// A scrape right after a gauge write parses to exactly the written value
/// for that metric and the unchanged samples of every other metric: a
/// reader sees either a metric's previous sample or its new one, never
/// anything in between.
pub proof fn lemma_set_then_scrape(ms: Seq<Metric>, i: int, v: u64)
    requires
        wf_names(ms),
        0 <= i < ms.len(),
    ensures
        parse_exposition(
            render_spec(
                ms.update(i, (Metric { value_milli: Option::Some(v), ..ms[i] })),
            ),
        ) == published(ms.subrange(0, i)) + seq![(ms[i].name@, v as nat)] + published(
            ms.subrange(i + 1, ms.len() as int),
        ),
{
    let m2 = Metric { value_milli: Option::Some(v), ..ms[i] };
    let ms2 = ms.update(i, m2);
    assert(wf_names(ms2)) by {
        assert forall|j: int|
            0 <= j < ms2.len() implies valid_name(#[trigger] ms2[j].name@) && valid_help(
            ms2[j].help@,
        ) by {
            if j != i {
                assert(ms2[j] == ms[j]);
            } else {
                assert(ms2[j].name@ == ms[i].name@);
            }
        }
    }
    lemma_render_parse_round_trip(ms2);
    let pre = ms.subrange(0, i);
    let post = ms.subrange(i + 1, ms.len() as int);
    assert(ms2 =~= pre + seq![m2] + post);
    lemma_published_append(pre + seq![m2], post);
    lemma_published_append(pre, seq![m2]);
    assert(seq![m2].subrange(1, 1) =~= Seq::<Metric>::empty());
    assert(published(seq![m2].subrange(1, 1)) =~= Seq::<(Seq<char>, nat)>::empty());
    assert(published(seq![m2]) =~= seq![(ms[i].name@, v as nat)]);
}

/// Check a metric name: nonempty, letters, digits, underscores and colons
/// only, not starting with a digit.
pub fn check_name(s: &str) -> (r: bool)
    ensures
        r == valid_name(s@),
{
    let n = s.unicode_len();
    if n == 0 {
        return false;
    }
    let c0 = s.get_char(0);
    let u0 = c0 as u32;
    if 48 <= u0 && u0 <= 57 {
        assert(is_digit(s@[0]));
        return false;
    }
    let mut i: usize = 0;
    while i < n
        invariant
            n == s@.len(),
            i <= n,
            forall|j: int| 0 <= j < i ==> is_name_char(#[trigger] s@[j]),
        decreases n - i,
    {
        let c = s.get_char(i);
        let u = c as u32;
        let ok = (97 <= u && u <= 122) || (65 <= u && u <= 90) || (48 <= u && u <= 57) || u == 95
            || u == 58;
        if !ok {
            assert(!is_name_char(s@[i as int]));
            return false;
        }
        assert(is_name_char(s@[i as int]));
        i += 1;
    }
    true
}

/// Check a help text: it may hold anything but a newline.
pub fn check_help(s: &str) -> (r: bool)
    ensures
        r == valid_help(s@),
{
    let n = s.unicode_len();
    let mut i: usize = 0;
    while i < n
        invariant
            n == s@.len(),
            i <= n,
            forall|j: int| 0 <= j < i ==> #[trigger] s@[j] != '\n',
        decreases n - i,
    {
        let c = s.get_char(i);
        if c as u32 == 10 {
            assert(s@[i as int] == '\n');
            return false;
        }
        i += 1;
    }
    true
}

/// Rendering distributes over concatenation of metric sequences.
pub proof fn lemma_render_blocks_append(a: Seq<Metric>, b: Seq<Metric>)
    ensures
        render_blocks(a + b) == render_blocks(a) + render_blocks(b),
    decreases a.len(),
{
    if a.len() == 0 {
        assert(a + b =~= b);
        assert(render_blocks(a) =~= Seq::<char>::empty());
        assert(render_blocks(a) + render_blocks(b) =~= render_blocks(b));
    } else {
        let a1 = a.subrange(1, a.len() as int);
        assert((a + b)[0] == a[0]);
        assert((a + b).subrange(1, (a + b).len() as int) =~= a1 + b);
        lemma_render_blocks_append(a1, b);
        assert(render_blocks(a + b) =~= render_blocks(a) + render_blocks(b));
    }
}

} // verus!
