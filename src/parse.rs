//! Recovering an output's saved position from config text.
use vstd::prelude::*;

use crate::compositor::Compositor;
use crate::text::{
    after_prefix, chars_of, contains_seq, find_char, first_index, has_char, lines_of, matches_at,
    parse_i32_at, parse_i32_spec, range_contains, range_eq, range_is, split_on, split_ranges,
    starts_with, trim, trim_bounds, word_ranges, words,
};

verus! {

broadcast use vstd::string::group_string_axioms;

/// A position read back from a config file.
#[derive(Debug, Clone, Copy, PartialEq, Eq, Structural)]
pub struct SavedPosition {
    pub x: i32,
    pub y: i32,
}

/// The position an output had in the saved config, as the arrangement reads it.
pub type ConfigPosition = SavedPosition;

/// `s` without its leading spaces and `=` signs.
pub open spec fn strip_assign(s: Seq<char>) -> Seq<char>
    decreases s.len(),
{
    if s.len() > 0 && (s[0] == ' ' || s[0] == '=') {
        strip_assign(s.drop_first())
    } else {
        s
    }
}

/// An `XxY` pair: the text before the first `x` and the text after it, each
/// trimmed and read as an `i32`.
pub open spec fn xy_spec(s: Seq<char>) -> Option<(i32, i32)> {
    let i = first_index(s, 'x');
    if 0 <= i < s.len() {
        match (
            parse_i32_spec(trim(s.subrange(0, i))),
            parse_i32_spec(trim(s.subrange(i + 1, s.len() as int))),
        ) {
            (Some(x), Some(y)) => Some((x, y)),
            _ => None,
        }
    } else {
        None
    }
}

/// The fields of a Hyprland `monitor` directive, after the keyword and the `=`.
pub open spec fn hypr_directive_body(line: Seq<char>) -> Option<Seq<char>> {
    let t = trim(line);
    if !starts_with(t, "monitor"@) {
        None
    } else {
        Some(trim(strip_assign(after_prefix(t, "monitor"@))))
    }
}

pub open spec fn has_disable_field(parts: Seq<Seq<char>>) -> bool {
    exists|k: int| 0 <= k < parts.len() && trim(#[trigger] parts[k]) == "disable"@
}

/// The position that one config line gives `name`: a `monitor` directive for
/// that name, not disabled, whose third field is an `XxY` pair.
pub open spec fn hypr_line_position(line: Seq<char>, name: Seq<char>) -> Option<SavedPosition> {
    match hypr_directive_body(line) {
        None => None,
        Some(body) => {
            let parts = split_on(body, ',');
            if trim(parts[0]) != name {
                None
            } else if has_disable_field(parts) {
                None
            } else if parts.len() > 2 {
                match xy_spec(trim(parts[2])) {
                    Some(p) => Some(SavedPosition { x: p.0, y: p.1 }),
                    None => None,
                }
            } else {
                None
            }
        },
    }
}

/// The last line that gives `name` a position decides it.
pub open spec fn hypr_position_in_lines(lines: Seq<Seq<char>>, name: Seq<char>) -> Option<
    SavedPosition,
>
    decreases lines.len(),
{
    if lines.len() == 0 {
        None
    } else {
        match hypr_line_position(lines.last(), name) {
            Some(p) => Some(p),
            None => hypr_position_in_lines(lines.drop_last(), name),
        }
    }
}

pub open spec fn hypr_saved_position(content: Seq<char>, name: Seq<char>) -> Option<SavedPosition> {
    hypr_position_in_lines(lines_of(content), name)
}

/// The first `pos X Y` among the words whose coordinates both read as `i32`.
pub open spec fn pos_in_words(ws: Seq<Seq<char>>) -> Option<SavedPosition>
    decreases ws.len(),
{
    if ws.len() < 3 {
        None
    } else if ws[0] == "pos"@ && parse_i32_spec(ws[1]) is Some && parse_i32_spec(ws[2]) is Some {
        Some(SavedPosition { x: parse_i32_spec(ws[1])->0, y: parse_i32_spec(ws[2])->0 })
    } else {
        pos_in_words(ws.drop_first())
    }
}

/// Which output a Sway line speaks of, and whether it is inside a braced
/// block, after reading `line` in state `st`.
pub open spec fn sway_step(line: Seq<char>, st: (Option<Seq<char>>, bool)) -> (
    Option<Seq<char>>,
    bool,
) {
    let t = trim(line);
    let opened = if starts_with(t, "output"@) && words(t).len() >= 2 {
        (Some(words(t)[1]), has_char(t, '{'))
    } else {
        st
    };
    if opened.1 && has_char(t, '}') {
        (None, false)
    } else {
        opened
    }
}

pub open spec fn sway_line_position(line: Seq<char>, current: Option<Seq<char>>, name: Seq<char>) -> Option<
    SavedPosition,
> {
    let t = trim(line);
    if current == Some(name) && (starts_with(t, "pos "@) || contains_seq(t, " pos "@)) {
        pos_in_words(words(t))
    } else {
        None
    }
}

/// The first `pos` found for `name` while reading the lines in order.
pub open spec fn sway_scan(lines: Seq<Seq<char>>, st: (Option<Seq<char>>, bool), name: Seq<char>) -> Option<
    SavedPosition,
>
    decreases lines.len(),
{
    if lines.len() == 0 {
        None
    } else {
        let next = sway_step(lines[0], st);
        match sway_line_position(lines[0], next.0, name) {
            Some(p) => Some(p),
            None => sway_scan(lines.drop_first(), next, name),
        }
    }
}

pub open spec fn sway_saved_position(content: Seq<char>, name: Seq<char>) -> Option<SavedPosition> {
    sway_scan(lines_of(content), (None, false), name)
}

pub open spec fn saved_position_spec(compositor: Compositor, content: Seq<char>, name: Seq<char>) -> Option<
    SavedPosition,
> {
    match compositor {
        Compositor::Hyprland => hypr_saved_position(content, name),
        Compositor::Sway => sway_saved_position(content, name),
        _ => None,
    }
}

/// `xy_spec` of `s[from..to]`.
fn xy_at(s: &[char], from: usize, to: usize) -> (r: Option<(i32, i32)>)
    requires
        from <= to <= s@.len(),
    ensures
        r == xy_spec(s@.subrange(from as int, to as int)),
{
    let ghost t = s@.subrange(from as int, to as int);
    let i = find_char(s, from, to, 'x');
    if i == to {
        return None;
    }
    let (xa, xb) = trim_bounds(s, from, i);
    let (ya, yb) = trim_bounds(s, i + 1, to);
    assert(t.subrange(0, i - from) =~= s@.subrange(from as int, i as int));
    assert(t.subrange(i - from + 1, t.len() as int) =~= s@.subrange(i + 1, to as int));
    match (parse_i32_at(s, xa, xb), parse_i32_at(s, ya, yb)) {
        (Some(x), Some(y)) => Some((x, y)),
        _ => None,
    }
}

/// Parses a position written `XxY` (`1920x0`, `-1920x0`).
pub fn parse_xy_position(s: &str) -> (r: Option<(i32, i32)>)
    ensures
        r == xy_spec(s@),
{
    let c = chars_of(s);
    assert(c@.subrange(0, c@.len() as int) =~= s@);
    xy_at(c.as_slice(), 0, c.len())
}

proof fn lemma_strip_assign_step(s: Seq<char>, a: int, b: int)
    requires
        0 <= a < b <= s.len(),
        s[a] == ' ' || s[a] == '=',
    ensures
        strip_assign(s.subrange(a, b)) == strip_assign(s.subrange(a + 1, b)),
{
    assert(s.subrange(a, b).drop_first() =~= s.subrange(a + 1, b));
}

/// `hypr_line_position` of the line `s[from..to]`.
fn hypr_line(s: &[char], from: usize, to: usize, name: &[char]) -> (r: Option<SavedPosition>)
    requires
        from <= to <= s@.len(),
    ensures
        r == hypr_line_position(s@.subrange(from as int, to as int), name@),
{
    proof {
        reveal_strlit("monitor");
    }
    let (ta, tb) = trim_bounds(s, from, to);
    if !matches_at(s, ta, tb, "monitor") {
        return None;
    }
    let ghost t = s@.subrange(ta as int, tb as int);
    let mut k = ta + 7;
    assert(after_prefix(t, "monitor"@) =~= s@.subrange(k as int, tb as int));
    while k < tb && (s[k] == ' ' || s[k] == '=')
        invariant
            ta + 7 <= k <= tb <= s@.len(),
            strip_assign(after_prefix(t, "monitor"@)) == strip_assign(s@.subrange(k as int, tb as int)),
        decreases tb - k,
    {
        proof {
            lemma_strip_assign_step(s@, k as int, tb as int);
        }
        k = k + 1;
    }
    assert(strip_assign(s@.subrange(k as int, tb as int)) == s@.subrange(k as int, tb as int));
    let (ra, rb) = trim_bounds(s, k, tb);
    assert(hypr_directive_body(s@.subrange(from as int, to as int)) == Some(
        s@.subrange(ra as int, rb as int),
    ));
    let parts = split_ranges(s, ra, rb, ',');
    let ghost ps = split_on(s@.subrange(ra as int, rb as int), ',');
    let (p0a, p0b) = trim_bounds(s, parts[0].0, parts[0].1);
    if !range_eq(s, p0a, p0b, name) {
        return None;
    }
    let mut j: usize = 0;
    while j < parts.len()
        invariant
            j <= parts@.len(),
            parts@.len() == ps.len(),
            ra <= rb <= s@.len(),
            ps == split_on(s@.subrange(ra as int, rb as int), ','),
            from <= to <= s@.len(),
            hypr_directive_body(s@.subrange(from as int, to as int)) == Some(
                s@.subrange(ra as int, rb as int),
            ),
            forall|m: int|
                0 <= m < parts@.len() ==> ra <= (#[trigger] parts@[m]).0 <= parts@[m].1 <= rb
                    && s@.subrange(parts@[m].0 as int, parts@[m].1 as int) == ps[m],
            forall|m: int| 0 <= m < j ==> trim(#[trigger] ps[m]) != "disable"@,
        decreases parts@.len() - j,
    {
        let (da, db) = trim_bounds(s, parts[j].0, parts[j].1);
        if range_is(s, da, db, "disable") {
            assert(trim(ps[j as int]) == "disable"@);
            assert(has_disable_field(ps));
            return None;
        }
        j = j + 1;
    }
    assert(!has_disable_field(ps));
    if parts.len() > 2 {
        let (xa, xb) = trim_bounds(s, parts[2].0, parts[2].1);
        match xy_at(s, xa, xb) {
            Some(p) => Some(SavedPosition { x: p.0, y: p.1 }),
            None => None,
        }
    } else {
        None
    }
}

/// The position that the Hyprland config `content` last saved for
/// `monitor_name`: the last `monitor` directive for that name that does not
/// disable it. A later disable does not erase it; a later enable overrides it.
pub fn parse_hyprland_position(content: &str, monitor_name: &str) -> (r: Option<SavedPosition>)
    ensures
        r == hypr_saved_position(content@, monitor_name@),
{
    let c = chars_of(content);
    let name = chars_of(monitor_name);
    let lines = split_ranges(c.as_slice(), 0, c.len(), '\n');
    let ghost ls = lines_of(content@);
    assert(c@.subrange(0, c@.len() as int) =~= content@);
    let mut found: Option<SavedPosition> = None;
    let mut i: usize = 0;
    while i < lines.len()
        invariant
            c@ == content@,
            name@ == monitor_name@,
            ls == lines_of(content@),
            i <= lines@.len(),
            lines@.len() == ls.len(),
            forall|m: int|
                0 <= m < lines@.len() ==> 0 <= (#[trigger] lines@[m]).0 <= lines@[m].1 <= c@.len()
                    && c@.subrange(lines@[m].0 as int, lines@[m].1 as int) == ls[m],
            found == hypr_position_in_lines(ls.subrange(0, i as int), monitor_name@),
        decreases lines@.len() - i,
    {
        let (a, b) = lines[i];
        let here = hypr_line(c.as_slice(), a, b, name.as_slice());
        assert(ls.subrange(0, i + 1).drop_last() =~= ls.subrange(0, i as int));
        if here.is_some() {
            found = here;
        }
        i = i + 1;
    }
    assert(ls.subrange(0, i as int) =~= ls);
    found
}

/// `pos_in_words` over the word ranges `w[from..]` of `s`.
fn pos_in_word_ranges(s: &[char], w: &Vec<(usize, usize)>, ws: Ghost<Seq<Seq<char>>>) -> (r: Option<
    SavedPosition,
>)
    requires
        w@.len() == ws@.len(),
        forall|m: int|
            0 <= m < w@.len() ==> (#[trigger] w@[m]).0 <= w@[m].1 <= s@.len() && s@.subrange(
                w@[m].0 as int,
                w@[m].1 as int,
            ) == ws@[m],
    ensures
        r == pos_in_words(ws@),
{
    proof {
        reveal_strlit("pos");
    }
    let mut i: usize = 0;
    assert(ws@.subrange(0, ws@.len() as int) =~= ws@);
    while i < w.len()
        invariant
            i <= w@.len(),
            w@.len() == ws@.len(),
            forall|m: int|
                0 <= m < w@.len() ==> (#[trigger] w@[m]).0 <= w@[m].1 <= s@.len() && s@.subrange(
                    w@[m].0 as int,
                    w@[m].1 as int,
                ) == ws@[m],
            pos_in_words(ws@) == pos_in_words(ws@.subrange(i as int, ws@.len() as int)),
        decreases w@.len() - i,
    {
        let ghost rest = ws@.subrange(i as int, ws@.len() as int);
        if w.len() - i < 3 {
            return None;
        }
        assert(rest[0] == ws@[i as int]);
        assert(rest[1] == ws@[i + 1]);
        assert(rest[2] == ws@[i + 2]);
        if range_is(s, w[i].0, w[i].1, "pos") {
            let x = parse_i32_at(s, w[i + 1].0, w[i + 1].1);
            let y = parse_i32_at(s, w[i + 2].0, w[i + 2].1);
            if let (Some(x), Some(y)) = (x, y) {
                return Some(SavedPosition { x, y });
            }
        }
        assert(rest.drop_first() =~= ws@.subrange(i + 1, ws@.len() as int));
        i = i + 1;
    }
    None
}

pub open spec fn range_names(s: Seq<char>, rg: Option<(usize, usize)>, cur: Option<Seq<char>>) -> bool {
    match rg {
        Some(r) => r.0 <= r.1 <= s.len() && cur == Some(s.subrange(r.0 as int, r.1 as int)),
        None => cur == None::<Seq<char>>,
    }
}

/// Reads the Sway line `s[from..to]` in state (`current`, `in_block`): the next
/// state, and the position the line gives `name`.
fn sway_line(
    s: &[char],
    from: usize,
    to: usize,
    name: &[char],
    current: Option<(usize, usize)>,
    in_block: bool,
    cur: Ghost<Option<Seq<char>>>,
) -> (r: (Option<(usize, usize)>, bool, Option<SavedPosition>))
    requires
        from <= to <= s@.len(),
        range_names(s@, current, cur@),
    ensures
        range_names(s@, r.0, sway_step(s@.subrange(from as int, to as int), (cur@, in_block)).0),
        r.1 == sway_step(s@.subrange(from as int, to as int), (cur@, in_block)).1,
        r.2 == sway_line_position(
            s@.subrange(from as int, to as int),
            sway_step(s@.subrange(from as int, to as int), (cur@, in_block)).0,
            name@,
        ),
{
    proof {
        reveal_strlit("output");
        reveal_strlit("pos ");
        reveal_strlit(" pos ");
    }
    let ghost line = s@.subrange(from as int, to as int);
    let (ta, tb) = trim_bounds(s, from, to);
    let ghost t = s@.subrange(ta as int, tb as int);
    let ws = word_ranges(s, ta, tb);
    let mut current = current;
    let mut in_block = in_block;
    let ghost mut c = cur@;
    let ghost b0 = in_block;
    if matches_at(s, ta, tb, "output") && ws.len() >= 2 {
        current = Some(ws[1]);
        proof {
            c = Some(words(t)[1]);
        }
        in_block = find_char(s, ta, tb, '{') < tb;
    }
    if in_block && find_char(s, ta, tb, '}') < tb {
        in_block = false;
        current = None;
        proof {
            c = None;
        }
    }
    assert(t == trim(line));
    assert((c, in_block) == sway_step(line, (cur@, b0)));
    let named = match current {
        Some(rg) => range_eq(s, rg.0, rg.1, name),
        None => false,
    };
    if named && (matches_at(s, ta, tb, "pos ") || range_contains(s, ta, tb, " pos ")) {
        let p = pos_in_word_ranges(s, &ws, Ghost(words(t)));
        (current, in_block, p)
    } else {
        (current, in_block, None)
    }
}

/// The position that the Sway config `content` gives `monitor_name`: the first
/// `pos X Y` inside an `output` block (braced or on one line) for that name.
pub fn parse_sway_position(content: &str, monitor_name: &str) -> (r: Option<SavedPosition>)
    ensures
        r == sway_saved_position(content@, monitor_name@),
{
    let c = chars_of(content);
    let name = chars_of(monitor_name);
    let s = c.as_slice();
    let lines = split_ranges(s, 0, c.len(), '\n');
    let ghost ls = lines_of(content@);
    assert(c@.subrange(0, c@.len() as int) =~= content@);
    let mut current: Option<(usize, usize)> = None;
    let mut in_block = false;
    let ghost mut cur: Option<Seq<char>> = None;
    let mut i: usize = 0;
    assert(ls.subrange(0, ls.len() as int) =~= ls);
    while i < lines.len()
        invariant
            s@ == content@,
            name@ == monitor_name@,
            ls == lines_of(content@),
            i <= lines@.len(),
            lines@.len() == ls.len(),
            forall|m: int|
                0 <= m < lines@.len() ==> 0 <= (#[trigger] lines@[m]).0 <= lines@[m].1 <= s@.len()
                    && s@.subrange(lines@[m].0 as int, lines@[m].1 as int) == ls[m],
            range_names(s@, current, cur),
            sway_saved_position(content@, monitor_name@) == sway_scan(
                ls.subrange(i as int, ls.len() as int),
                (cur, in_block),
                monitor_name@,
            ),
        decreases lines@.len() - i,
    {
        let ghost rest = ls.subrange(i as int, ls.len() as int);
        assert(rest[0] == ls[i as int]);
        let (a, b) = lines[i];
        let r = sway_line(s, a, b, name.as_slice(), current, in_block, Ghost(cur));
        if r.2.is_some() {
            return r.2;
        }
        proof {
            cur = sway_step(ls[i as int], (cur, in_block)).0;
        }
        current = r.0;
        in_block = r.1;
        assert(rest.drop_first() =~= ls.subrange(i + 1, ls.len() as int));
        i = i + 1;
    }
    None
}

/// The last line that gives `name` a position decides it: lines after it that
/// give none (disable directives, other outputs, anything else) do not erase
/// it, and a later line that gives one overrides it.
pub proof fn lemma_last_directive_wins(lines: Seq<Seq<char>>, name: Seq<char>, k: int)
    requires
        0 <= k < lines.len(),
        hypr_line_position(lines[k], name) is Some,
        forall|j: int| k < j < lines.len() ==> hypr_line_position(#[trigger] lines[j], name) is None,
    ensures
        hypr_position_in_lines(lines, name) == hypr_line_position(lines[k], name),
    decreases lines.len(),
{
    if k < lines.len() - 1 {
        assert(hypr_line_position(lines[lines.len() - 1], name) is None);
        let rest = lines.drop_last();
        assert forall|j: int| k < j < rest.len() implies hypr_line_position(#[trigger] rest[j], name) is None by {
            assert(rest[j] == lines[j]);
        }
        lemma_last_directive_wins(rest, name, k);
    }
}

/// Without a line that gives `name` a position, nothing is found.
pub proof fn lemma_no_directive_no_position(lines: Seq<Seq<char>>, name: Seq<char>)
    requires
        forall|j: int| 0 <= j < lines.len() ==> hypr_line_position(#[trigger] lines[j], name) is None,
    ensures
        hypr_position_in_lines(lines, name) is None,
    decreases lines.len(),
{
    if lines.len() > 0 {
        let rest = lines.drop_last();
        assert(hypr_line_position(lines[lines.len() - 1], name) is None);
        assert forall|j: int| 0 <= j < rest.len() implies hypr_line_position(#[trigger] rest[j], name) is None by {
            assert(rest[j] == lines[j]);
        }
        lemma_no_directive_no_position(rest, name);
    }
}

/// A directive with a `disable` field never gives a position.
pub proof fn lemma_disable_gives_no_position(line: Seq<char>, name: Seq<char>)
    requires
        hypr_directive_body(line) matches Some(body) && has_disable_field(split_on(body, ',')),
    ensures
        hypr_line_position(line, name) is None,
{
}

/// The saved position of `monitor_name` in config text of the given dialect;
/// `None` for dialects without a native config file.
pub fn get_saved_monitor_position(compositor: Compositor, content: &str, monitor_name: &str) -> (r:
    Option<SavedPosition>)
    ensures
        r == saved_position_spec(compositor, content@, monitor_name@),
{
    match compositor {
        Compositor::Hyprland => parse_hyprland_position(content, monitor_name),
        Compositor::Sway => parse_sway_position(content, monitor_name),
        _ => None,
    }
}

} // verus!
