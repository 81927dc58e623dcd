//! Reading back what the Sway formatter writes.
use vstd::prelude::*;

use crate::format::{
    header_text, mode_text, scale_text, sway_config_text, sway_monitor_block, sway_monitors_text,
    sway_transform_text,
};
use crate::round_trip::{
    concat_lines, header_line, lemma_concat_append, lemma_concat_one, lemma_header_lines,
    no_newlines,
};
use crate::text::lines_of;
use crate::output::{Monitor, Transform};
use crate::parse::{pos_in_words, sway_line_position, sway_scan, sway_step, SavedPosition};
use crate::text::parse_i32_spec;
use crate::round_trip::{is_num_char, lemma_int_text_parses, lemma_trim_end_prefix};
use crate::text::{
    first_ws, has_char, int_text, is_ws, lemma_trim_start_shorter, starts_with, trim, trim_end,
    trim_start, words,
};

verus! {

broadcast use vstd::string::group_string_axioms;

/// No blank character in `w`.
pub open spec fn unbroken(w: Seq<char>) -> bool {
    w.len() > 0 && forall|i: int| 0 <= i < w.len() ==> !is_ws(#[trigger] w[i])
}

proof fn lemma_first_ws_at(s: Seq<char>, k: int)
    requires
        0 <= k <= s.len(),
        forall|j: int| 0 <= j < k ==> !is_ws(#[trigger] s[j]),
        k < s.len() ==> is_ws(s[k]),
    ensures
        first_ws(s) == k,
{
    if k < s.len() {
        let c = choose|i: int| 0 <= i < s.len() && is_ws(s[i]) && forall|j: int| 0 <= j < i ==> !is_ws(s[j]);
        assert(0 <= k < s.len() && is_ws(s[k]) && forall|j: int| 0 <= j < k ==> !is_ws(s[j]));
        if c < k {
            assert(!is_ws(s[c]));
        } else if c > k {
            assert(!is_ws(s[k]));
        }
    }
}

/// A leading blank does not change the words.
pub proof fn lemma_words_space(r: Seq<char>)
    ensures
        words(seq![' '] + r) == words(r),
{
    let s = seq![' '] + r;
    assert(s.drop_first() =~= r);
    assert(trim_start(s) == trim_start(r));
    lemma_trim_start_shorter(r);
}

/// A word and a blank in front of `rest`.
pub proof fn lemma_words_cons(w: Seq<char>, rest: Seq<char>)
    requires
        unbroken(w),
    ensures
        words(w + seq![' '] + rest) == seq![w] + words(rest),
{
    let s = w + seq![' '] + rest;
    assert(s[0] == w[0]);
    assert(trim_start(s) == s);
    assert forall|j: int| 0 <= j < w.len() implies !is_ws(#[trigger] s[j]) by {
        assert(s[j] == w[j]);
    }
    assert(is_ws(s[w.len() as int]));
    lemma_first_ws_at(s, w.len() as int);
    assert(s.subrange(0, w.len() as int) =~= w);
    assert(s.subrange(w.len() as int, s.len() as int) =~= seq![' '] + rest);
    lemma_words_space(rest);
}

/// A last word.
pub proof fn lemma_words_single(w: Seq<char>)
    requires
        unbroken(w),
    ensures
        words(w) == seq![w],
{
    assert(trim_start(w) == w);
    lemma_first_ws_at(w, w.len() as int);
    assert(w.subrange(0, w.len() as int) =~= w);
    assert(w.subrange(w.len() as int, w.len() as int) =~= Seq::<char>::empty());
    assert(trim_start(Seq::<char>::empty()) =~= Seq::<char>::empty());
    assert(words(Seq::<char>::empty()) == Seq::<Seq<char>>::empty());
    assert(seq![w] + Seq::<Seq<char>>::empty() =~= seq![w]);
}

pub proof fn lemma_int_unbroken(i: i32)
    ensures
        unbroken(int_text(i as int)),
        forall|j: int| 0 <= j < int_text(i as int).len() ==> is_num_char(#[trigger] int_text(i as int)[j]),
{
    lemma_int_text_parses(i);
    let t = int_text(i as int);
    assert forall|j: int| 0 <= j < t.len() implies !is_ws(#[trigger] t[j]) by {
        assert(is_num_char(t[j]));
    }
}

/// The reading state after the lines.
pub open spec fn state_after(lines: Seq<Seq<char>>, st: (Option<Seq<char>>, bool)) -> (
    Option<Seq<char>>,
    bool,
)
    decreases lines.len(),
{
    if lines.len() == 0 {
        st
    } else {
        state_after(lines.drop_first(), sway_step(lines[0], st))
    }
}

/// Reading two runs of lines: the first position found wins.
pub proof fn lemma_scan_concat(
    a: Seq<Seq<char>>,
    b: Seq<Seq<char>>,
    st: (Option<Seq<char>>, bool),
    name: Seq<char>,
)
    ensures
        sway_scan(a + b, st, name) == if sway_scan(a, st, name) is Some {
            sway_scan(a, st, name)
        } else {
            sway_scan(b, state_after(a, st), name)
        },
    decreases a.len(),
{
    if a.len() == 0 {
        assert(a + b =~= b);
    } else {
        assert((a + b)[0] == a[0]);
        assert((a + b).drop_first() =~= a.drop_first() + b);
        lemma_scan_concat(a.drop_first(), b, sway_step(a[0], st), name);
    }
}

/// A line that never makes `name` the current output and never gives it a
/// position, from a state where it is not current.
pub open spec fn harmless(line: Seq<char>, name: Seq<char>) -> bool {
    forall|st: (Option<Seq<char>>, bool)|
        st.0 != Some(name) ==> (#[trigger] sway_step(line, st)).0 != Some(name) && sway_line_position(
            line,
            sway_step(line, st).0,
            name,
        ) is None
}

pub proof fn lemma_scan_harmless(lines: Seq<Seq<char>>, st: (Option<Seq<char>>, bool), name: Seq<char>)
    requires
        st.0 != Some(name),
        forall|i: int| 0 <= i < lines.len() ==> harmless(#[trigger] lines[i], name),
    ensures
        sway_scan(lines, st, name) is None,
        state_after(lines, st).0 != Some(name),
    decreases lines.len(),
{
    if lines.len() > 0 {
        assert(harmless(lines[0], name));
        let next = sway_step(lines[0], st);
        assert(next.0 != Some(name));
        let rest = lines.drop_first();
        assert forall|i: int| 0 <= i < rest.len() implies harmless(#[trigger] rest[i], name) by {
            assert(rest[i] == lines[i + 1]);
        }
        lemma_scan_harmless(rest, next, name);
    }
}

/// Four blanks in front of a word run.
pub open spec fn indented(r: Seq<char>) -> Seq<char> {
    seq![' ', ' ', ' ', ' '] + r
}

pub proof fn lemma_trim_indented(r: Seq<char>)
    requires
        r.len() > 0,
        !is_ws(r[0]),
        !is_ws(r.last()),
    ensures
        trim(indented(r)) == r,
{
    let s = indented(r);
    let s1 = seq![' ', ' ', ' '] + r;
    let s2 = seq![' ', ' '] + r;
    let s3 = seq![' '] + r;
    assert(s.drop_first() =~= s1);
    assert(s1.drop_first() =~= s2);
    assert(s2.drop_first() =~= s3);
    assert(s3.drop_first() =~= r);
    assert(trim_start(r) == r);
    assert(s3[0] == ' ' && s2[0] == ' ' && s1[0] == ' ' && s[0] == ' ');
    assert(trim_start(s3) == trim_start(r));
    assert(trim_start(s2) == trim_start(s3));
    assert(trim_start(s1) == trim_start(s2));
    assert(trim_start(s) == trim_start(s1));
    assert(trim_end(r) == r);
}

/// A line whose trimmed text starts with neither `o` nor a blank is harmless
/// when it closes no block it could leave `name` current in.
pub proof fn lemma_not_output_harmless(line: Seq<char>, name: Seq<char>)
    requires
        trim(line).len() == 0 || trim(line)[0] != 'o',
    ensures
        harmless(line, name),
{
    reveal_strlit("output");
    let t = trim(line);
    if starts_with(t, "output"@) {
        assert(t.subrange(0, 6)[0] == "output"@[0]);
    }
}

/// `output <name> {` or `output <name> disable`.
pub open spec fn head_line(n: Seq<char>, enabled: bool) -> Seq<char> {
    if enabled {
        "output "@ + n + " {"@
    } else {
        "output "@ + n + " disable"@
    }
}

pub open spec fn sway_name_ok(n: Seq<char>) -> bool {
    unbroken(n) && !has_char(n, '{') && !has_char(n, '}')
}

pub proof fn lemma_head_line(n: Seq<char>, enabled: bool, st: (Option<Seq<char>>, bool), name: Seq<char>)
    requires
        sway_name_ok(n),
    ensures
        sway_step(head_line(n, enabled), st) == (Some(n), enabled),
        sway_line_position(head_line(n, enabled), Some(n), name) is None,
{
    reveal_strlit("output");
    reveal_strlit("output ");
    reveal_strlit(" {");
    reveal_strlit(" disable");
    reveal_strlit("pos");
    let l = head_line(n, enabled);
    let out = seq!['o', 'u', 't', 'p', 'u', 't'];
    let last = if enabled { seq!['{'] } else { seq!['d', 'i', 's', 'a', 'b', 'l', 'e'] };
    assert(l =~= out + seq![' '] + (n + seq![' '] + last));
    assert(l[0] == 'o');
    assert(!is_ws(l.last()));
    assert(trim_start(l) == l);
    assert(trim_end(l) == l);
    assert(l.subrange(0, 6) =~= "output"@);
    assert(unbroken(out));
    assert(unbroken(last));
    lemma_words_cons(out, n + seq![' '] + last);
    lemma_words_cons(n, last);
    lemma_words_single(last);
    let ws = words(l);
    assert(ws =~= seq![out, n, last]);
    assert(ws.len() >= 2 && ws[1] == n);
    // braces
    assert(has_char(l, '{') == enabled) by {
        if enabled {
            assert(l[l.len() - 1] == '{');
        } else if has_char(l, '{') {
            let i = choose|i: int| 0 <= i < l.len() && l[i] == '{';
            if 7 <= i < 7 + n.len() {
                assert(n[i - 7] == '{');
            }
        }
    }
    assert(!has_char(l, '}')) by {
        if has_char(l, '}') {
            let i = choose|i: int| 0 <= i < l.len() && l[i] == '}';
            if 7 <= i < 7 + n.len() {
                assert(n[i - 7] == '}');
            }
        }
    }
    // no position: the words are `output`, the name and one more
    assert(ws[0] != "pos"@) by {
        assert(ws[0].len() != "pos"@.len());
    }
    assert(ws.drop_first().len() < 3);
    assert(trim(l) == l);
    assert(pos_in_words(ws.drop_first()) is None);
    assert(pos_in_words(ws) is None);
}

/// Blanks are spaces only.
pub open spec fn clean(s: Seq<char>) -> bool {
    forall|i: int| 0 <= i < s.len() ==> (#[trigger] s[i]) == ' ' || !is_ws(s[i])
}

pub proof fn lemma_clean_concat(a: Seq<char>, b: Seq<char>)
    requires
        clean(a),
        clean(b),
    ensures
        clean(a + b),
{
    assert forall|i: int| 0 <= i < (a + b).len() implies (#[trigger] (a + b)[i]) == ' ' || !is_ws((a + b)[i]) by {
        if i < a.len() {
            assert((a + b)[i] == a[i]);
        } else {
            assert((a + b)[i] == b[i - a.len()]);
        }
    }
}

pub proof fn lemma_clean_no_nl(s: Seq<char>)
    requires
        clean(s),
    ensures
        !has_char(s, '\n'),
{
    if has_char(s, '\n') {
        let i = choose|i: int| 0 <= i < s.len() && s[i] == '\n';
        assert(s[i] == ' ' || !is_ws(s[i]));
    }
}

/// No character of `s` is a closing brace.
pub proof fn lemma_no_brace_concat(a: Seq<char>, b: Seq<char>)
    requires
        !has_char(a, '}'),
        !has_char(b, '}'),
    ensures
        !has_char(a + b, '}'),
{
    if has_char(a + b, '}') {
        let i = choose|i: int| 0 <= i < (a + b).len() && (a + b)[i] == '}';
        if i < a.len() {
            assert(a[i] == '}');
        } else {
            assert(b[i - a.len()] == '}');
        }
    }
}

pub proof fn lemma_num_facts(i: i32)
    ensures
        unbroken(int_text(i as int)),
        clean(int_text(i as int)),
        !has_char(int_text(i as int), '}'),
        parse_i32_spec(int_text(i as int)) == Some(i),
{
    lemma_int_unbroken(i);
    lemma_int_text_parses(i);
    let t = int_text(i as int);
    if has_char(t, '}') {
        let k = choose|k: int| 0 <= k < t.len() && t[k] == '}';
        assert(is_num_char(t[k]));
    }
}

pub proof fn lemma_mode_facts(m: Monitor)
    ensures
        unbroken(mode_text(m)),
        clean(mode_text(m)),
        !has_char(mode_text(m), '}'),
{
    reveal_strlit("x");
    reveal_strlit("@");
    let md = crate::format::current_mode_spec(m);
    lemma_num_facts(md.0);
    lemma_num_facts(md.1);
    lemma_num_facts(md.2);
    let a = int_text(md.0 as int);
    let b = int_text(md.1 as int);
    let r = int_text(md.2 as int);
    let x = seq!['x'];
    let at = seq!['@'];
    assert(mode_text(m) =~= a + x + b + at + r);
    assert(unbroken(x) && clean(x) && !has_char(x, '}'));
    assert(unbroken(at) && clean(at) && !has_char(at, '}'));
    lemma_clean_concat(a, x);
    lemma_clean_concat(a + x, b);
    lemma_clean_concat(a + x + b, at);
    lemma_clean_concat(a + x + b + at, r);
    lemma_no_brace_concat(a, x);
    lemma_no_brace_concat(a + x, b);
    lemma_no_brace_concat(a + x + b, at);
    lemma_no_brace_concat(a + x + b + at, r);
    let t = mode_text(m);
    assert forall|i: int| 0 <= i < t.len() implies !is_ws(#[trigger] t[i]) by {
        let u = a + x + b + at + r;
        if i < a.len() {
            assert(u[i] == a[i]);
        } else if i < a.len() + 1 {
        } else if i < a.len() + 1 + b.len() {
            assert(u[i] == b[i - a.len() - 1]);
        } else if i < a.len() + 2 + b.len() {
        } else {
            assert(u[i] == r[i - a.len() - 2 - b.len()]);
        }
    }
}

pub proof fn lemma_scale_facts(c: u32)
    ensures
        unbroken(scale_text(c)),
        clean(scale_text(c)),
{
    crate::round_trip::lemma_scale_field(c);
    let t = scale_text(c);
    assert forall|i: int| 0 <= i < t.len() implies !is_ws(#[trigger] t[i]) by {
        assert(crate::round_trip::safe_char(t[i]));
    }
}

pub proof fn lemma_transform_facts(t: Transform)
    ensures
        unbroken(sway_transform_text(t)),
        clean(sway_transform_text(t)),
{
    reveal_strlit("normal");
    reveal_strlit("90");
    reveal_strlit("180");
    reveal_strlit("270");
    reveal_strlit("flipped");
    reveal_strlit("flipped-90");
    reveal_strlit("flipped-180");
    reveal_strlit("flipped-270");
    let s = sway_transform_text(t);
    assert forall|i: int| 0 <= i < s.len() implies !is_ws(#[trigger] s[i]) by {}
}

pub open spec fn mode_rest(m: Monitor) -> Seq<char> {
    seq!['m', 'o', 'd', 'e', ' '] + mode_text(m) + seq!['H', 'z']
}

pub open spec fn pos_rest(m: Monitor) -> Seq<char> {
    seq!['p', 'o', 's', ' '] + int_text(m.x as int) + seq![' '] + int_text(m.y as int)
}

pub open spec fn scale_rest(m: Monitor) -> Seq<char> {
    seq!['s', 'c', 'a', 'l', 'e', ' '] + scale_text(m.scale)
}

pub open spec fn transform_rest(m: Monitor) -> Seq<char> {
    seq!['t', 'r', 'a', 'n', 's', 'f', 'o', 'r', 'm', ' '] + sway_transform_text(m.transform)
}

/// The lines of one output's part of a Sway file, the blank line after it included.
pub open spec fn block_lines(m: Monitor) -> Seq<Seq<char>> {
    if m.enabled {
        seq![
            head_line(m.name@, true),
            indented(mode_rest(m)),
            indented(pos_rest(m)),
            indented(scale_rest(m)),
            indented(transform_rest(m)),
            seq!['}'],
            Seq::<char>::empty(),
        ]
    } else {
        seq![head_line(m.name@, false), Seq::<char>::empty()]
    }
}

proof fn lemma_rest_facts(m: Monitor)
    ensures
        mode_rest(m).len() > 0 && mode_rest(m)[0] == 'm' && !is_ws(mode_rest(m).last()),
        pos_rest(m).len() > 0 && pos_rest(m)[0] == 'p' && !is_ws(pos_rest(m).last()),
        scale_rest(m).len() > 0 && scale_rest(m)[0] == 's' && !is_ws(scale_rest(m).last()),
        transform_rest(m).len() > 0 && transform_rest(m)[0] == 't' && !is_ws(transform_rest(m).last()),
        clean(mode_rest(m)) && clean(pos_rest(m)) && clean(scale_rest(m)) && clean(transform_rest(m)),
        !has_char(mode_rest(m), '}') && !has_char(pos_rest(m), '}'),
{
    lemma_mode_facts(m);
    lemma_num_facts(m.x);
    lemma_num_facts(m.y);
    lemma_scale_facts(m.scale);
    lemma_transform_facts(m.transform);
    let md = mode_text(m);
    let ix = int_text(m.x as int);
    let iy = int_text(m.y as int);
    let sc = scale_text(m.scale);
    let tr = sway_transform_text(m.transform);
    let a = seq!['m', 'o', 'd', 'e', ' '];
    let hz = seq!['H', 'z'];
    let p = seq!['p', 'o', 's', ' '];
    let sp = seq![' '];
    let sl = seq!['s', 'c', 'a', 'l', 'e', ' '];
    let tf = seq!['t', 'r', 'a', 'n', 's', 'f', 'o', 'r', 'm', ' '];
    assert(clean(a) && clean(hz) && clean(p) && clean(sp) && clean(sl) && clean(tf));
    assert(!has_char(a, '}') && !has_char(hz, '}') && !has_char(p, '}') && !has_char(sp, '}'));
    lemma_clean_concat(a, md);
    lemma_clean_concat(a + md, hz);
    lemma_clean_concat(p, ix);
    lemma_clean_concat(p + ix, sp);
    lemma_clean_concat(p + ix + sp, iy);
    lemma_clean_concat(sl, sc);
    lemma_clean_concat(tf, tr);
    lemma_no_brace_concat(a, md);
    lemma_no_brace_concat(a + md, hz);
    lemma_no_brace_concat(p, ix);
    lemma_no_brace_concat(p + ix, sp);
    lemma_no_brace_concat(p + ix + sp, iy);
    assert(mode_rest(m).last() == 'z');
    assert(pos_rest(m).last() == iy.last());
    assert(!is_ws(iy[iy.len() - 1]));
    assert(scale_rest(m).last() == sc.last());
    assert(!is_ws(sc[sc.len() - 1]));
    assert(transform_rest(m).last() == tr.last());
    assert(!is_ws(tr[tr.len() - 1]));
}

/// The block of an output not named `name` neither names it nor gives it a position.
pub proof fn lemma_block_harmless(m: Monitor, name: Seq<char>)
    requires
        sway_name_ok(m.name@),
        m.name@ != name,
    ensures
        forall|i: int| 0 <= i < block_lines(m).len() ==> harmless(#[trigger] block_lines(m)[i], name),
{
    let n = m.name@;
    lemma_rest_facts(m);
    let h = head_line(n, m.enabled);
    assert forall|st: (Option<Seq<char>>, bool)| st.0 != Some(name) implies (#[trigger] sway_step(h, st)).0 != Some(name)
        && sway_line_position(h, sway_step(h, st).0, name) is None by {
        lemma_head_line(n, m.enabled, st, name);
    }
    assert(harmless(h, name));
    assert(trim(seq!['}']) == seq!['}']) by {
        assert(trim_start(seq!['}']) == seq!['}']);
    }
    lemma_not_output_harmless(seq!['}'], name);
    assert(trim(Seq::<char>::empty()).len() == 0) by {
        assert(trim_start(Seq::<char>::empty()) == Seq::<char>::empty());
    }
    lemma_not_output_harmless(Seq::<char>::empty(), name);
    if m.enabled {
        lemma_trim_indented(mode_rest(m));
        lemma_trim_indented(pos_rest(m));
        lemma_trim_indented(scale_rest(m));
        lemma_trim_indented(transform_rest(m));
        lemma_not_output_harmless(indented(mode_rest(m)), name);
        lemma_not_output_harmless(indented(pos_rest(m)), name);
        lemma_not_output_harmless(indented(scale_rest(m)), name);
        lemma_not_output_harmless(indented(transform_rest(m)), name);
    }
}

proof fn lemma_mode_line(m: Monitor)
    ensures
        sway_step(indented(mode_rest(m)), (Some(m.name@), true)) == (Some(m.name@), true),
        sway_line_position(indented(mode_rest(m)), Some(m.name@), m.name@) is None,
{
    reveal_strlit("output");
    let n = m.name@;
    let s1 = (Some(n), true);
    lemma_rest_facts(m);
    // the mode line
    let l2 = indented(mode_rest(m));
    lemma_trim_indented(mode_rest(m));
    assert(!starts_with(mode_rest(m), "output"@)) by {
        assert(mode_rest(m).subrange(0, 6)[0] != "output"@[0]);
    }
    assert(sway_step(l2, s1) == s1);
    lemma_mode_facts(m);
    let mw = mode_text(m) + seq!['H', 'z'];
    assert(unbroken(mw)) by {
        assert forall|i: int| 0 <= i < mw.len() implies !is_ws(#[trigger] mw[i]) by {
            if i < mode_text(m).len() {
                assert(mw[i] == mode_text(m)[i]);
            }
        }
    }
    let mo = seq!['m', 'o', 'd', 'e'];
    assert(unbroken(mo));
    assert(mode_rest(m) =~= mo + seq![' '] + mw);
    lemma_words_cons(mo, mw);
    lemma_words_single(mw);
    assert(words(mode_rest(m)) =~= seq![mo, mw]);
    assert(pos_in_words(words(mode_rest(m))) is None);
    assert(sway_line_position(l2, Some(n), n) is None);
}

proof fn lemma_pos_line(m: Monitor)
    ensures
        sway_step(indented(pos_rest(m)), (Some(m.name@), true)) == (Some(m.name@), true),
        sway_line_position(indented(pos_rest(m)), Some(m.name@), m.name@) == Some(SavedPosition { x: m.x, y: m.y }),
{
    reveal_strlit("pos");
    reveal_strlit("pos ");
    reveal_strlit("output");
    let n = m.name@;
    let s1 = (Some(n), true);
    lemma_rest_facts(m);
    // the position line
    let l3 = indented(pos_rest(m));
    lemma_trim_indented(pos_rest(m));
    assert(!starts_with(pos_rest(m), "output"@)) by {
        assert(pos_rest(m).subrange(0, 6)[0] != "output"@[0]);
    }
    assert(sway_step(l3, s1) == s1);
    let ix = int_text(m.x as int);
    let iy = int_text(m.y as int);
    lemma_num_facts(m.x);
    lemma_num_facts(m.y);
    let po = seq!['p', 'o', 's'];
    assert(unbroken(po));
    assert(pos_rest(m) =~= po + seq![' '] + (ix + seq![' '] + iy));
    lemma_words_cons(po, ix + seq![' '] + iy);
    lemma_words_cons(ix, iy);
    lemma_words_single(iy);
    let ws = words(pos_rest(m));
    assert(ws =~= seq![po, ix, iy]);
    assert(po =~= "pos"@);
    assert(pos_rest(m).subrange(0, 4) =~= "pos "@);
    assert(pos_in_words(ws) == Some(SavedPosition { x: m.x, y: m.y }));
    assert(sway_line_position(l3, Some(n), n) == Some(SavedPosition { x: m.x, y: m.y }));
}

/// Reading an enabled output's block for its own name finds its position.
pub proof fn lemma_block_hit(m: Monitor, st: (Option<Seq<char>>, bool))
    requires
        sway_name_ok(m.name@),
        m.enabled,
    ensures
        sway_scan(block_lines(m), st, m.name@) == Some(SavedPosition { x: m.x, y: m.y }),
{
    reveal_strlit("pos");
    reveal_strlit("pos ");
    reveal_strlit("output");
    let n = m.name@;
    let ls = block_lines(m);
    lemma_rest_facts(m);
    lemma_head_line(n, true, st, n);
    let s1 = (Some(n), true);
    lemma_mode_line(m);
    lemma_pos_line(m);
    let l2 = indented(mode_rest(m));
    let l3 = indented(pos_rest(m));
    // unfold the scan over the first three lines
    assert(ls[0] == head_line(n, true));
    let r1 = ls.drop_first();
    assert(r1[0] == l2);
    let r2 = r1.drop_first();
    assert(r2[0] == l3);
    assert(sway_scan(r2, s1, n) == Some(SavedPosition { x: m.x, y: m.y }));
    assert(sway_scan(r1, s1, n) == sway_scan(r2, s1, n));
    assert(sway_scan(ls, st, n) == sway_scan(r1, s1, n));
}

proof fn lemma_concat_seven(ls: Seq<Seq<char>>)
    requires
        ls.len() == 7,
    ensures
        concat_lines(ls) == ls[0] + seq!['\n'] + ls[1] + seq!['\n'] + ls[2] + seq!['\n'] + ls[3]
            + seq!['\n'] + ls[4] + seq!['\n'] + ls[5] + seq!['\n'] + ls[6] + seq!['\n'],
{
        lemma_concat_one(ls[0]);
        assert(ls.subrange(0, 1) =~= seq![ls[0]]);
        let c1 = ls[0] + seq!['\n'];
        assert(concat_lines(ls.subrange(0, 1)) == c1);
        assert(ls.subrange(0, 2).drop_last() =~= ls.subrange(0, 1));
        assert(ls.subrange(0, 3).drop_last() =~= ls.subrange(0, 2));
        assert(ls.subrange(0, 4).drop_last() =~= ls.subrange(0, 3));
        assert(ls.subrange(0, 5).drop_last() =~= ls.subrange(0, 4));
        assert(ls.subrange(0, 6).drop_last() =~= ls.subrange(0, 5));
        assert(ls.subrange(0, 7).drop_last() =~= ls.subrange(0, 6));
        assert(ls.subrange(0, 7) =~= ls);
        assert(ls.subrange(0, 2).last() == ls[1]);
        assert(ls.subrange(0, 3).last() == ls[2]);
        assert(ls.subrange(0, 4).last() == ls[3]);
        assert(ls.subrange(0, 5).last() == ls[4]);
        assert(ls.subrange(0, 6).last() == ls[5]);
        assert(ls.subrange(0, 7).last() == ls[6]);
        let c2 = c1 + ls[1] + seq!['\n'];
        assert(concat_lines(ls.subrange(0, 2)) == c2);
        let c3 = c2 + ls[2] + seq!['\n'];
        assert(concat_lines(ls.subrange(0, 3)) == c3);
        let c4 = c3 + ls[3] + seq!['\n'];
        assert(concat_lines(ls.subrange(0, 4)) == c4);
        let c5 = c4 + ls[4] + seq!['\n'];
        assert(concat_lines(ls.subrange(0, 5)) == c5);
        let c6 = c5 + ls[5] + seq!['\n'];
        assert(concat_lines(ls.subrange(0, 6)) == c6);
        let c7 = c6 + ls[6] + seq!['\n'];
        assert(concat_lines(ls.subrange(0, 7)) == c7);
        let c = ls[0] + seq!['\n'] + ls[1] + seq!['\n'] + ls[2] + seq!['\n'] + ls[3] + seq!['\n'] + ls[4]
            + seq!['\n'] + ls[5] + seq!['\n'] + ls[6] + seq!['\n'];
        assert(concat_lines(ls) =~= c);
}

#[verifier::rlimit(60)]
proof fn lemma_block_text(m: Monitor)
    ensures
        concat_lines(block_lines(m)) == sway_monitor_block(m) + "\n\n"@,
{
    reveal_strlit("\n\n");
    reveal_strlit("output ");
    reveal_strlit(" disable");
    reveal_strlit(" {\n    mode ");
    reveal_strlit("Hz\n    pos ");
    reveal_strlit(" ");
    reveal_strlit("\n    scale ");
    reveal_strlit("\n    transform ");
    reveal_strlit("\n}");
    reveal_strlit(" {");
    let ls = block_lines(m);
    if m.enabled {
        lemma_concat_seven(ls);
        let c = ls[0] + seq!['\n'] + ls[1] + seq!['\n'] + ls[2] + seq!['\n'] + ls[3] + seq!['\n'] + ls[4]
            + seq!['\n'] + ls[5] + seq!['\n'] + ls[6] + seq!['\n'];
        assert(c =~= sway_monitor_block(m) + "\n\n"@);
    } else {
        assert(ls.drop_last() =~= seq![ls[0]]);
        lemma_concat_one(ls[0]);
        assert(concat_lines(ls) =~= ls[0] + seq!['\n'] + seq!['\n']);
        assert(concat_lines(ls) =~= sway_monitor_block(m) + "\n\n"@);
    }
}

proof fn lemma_block_no_nl(m: Monitor)
    requires
        sway_name_ok(m.name@),
    ensures
        no_newlines(block_lines(m)),
{
    reveal_strlit("output ");
    reveal_strlit(" {");
    reveal_strlit(" disable");
    lemma_rest_facts(m);
    let n = m.name@;
    let ls = block_lines(m);
    let out = seq!['o', 'u', 't', 'p', 'u', 't', ' '];
    let tail = if m.enabled { seq![' ', '{'] } else { seq![' ', 'd', 'i', 's', 'a', 'b', 'l', 'e'] };
    assert(clean(out) && clean(tail));
    assert(clean(n)) by {
        assert forall|i: int| 0 <= i < n.len() implies (#[trigger] n[i]) == ' ' || !is_ws(n[i]) by {}
    }
    lemma_clean_concat(out, n);
    lemma_clean_concat(out + n, tail);
    assert(head_line(n, m.enabled) =~= out + n + tail);
    lemma_clean_no_nl(head_line(n, m.enabled));
    let four = seq![' ', ' ', ' ', ' '];
    assert(clean(four));
    assert(clean(Seq::<char>::empty()));
    assert(clean(seq!['}']));
    lemma_clean_no_nl(Seq::<char>::empty());
    lemma_clean_no_nl(seq!['}']);
    if m.enabled {
        lemma_clean_concat(four, mode_rest(m));
        lemma_clean_concat(four, pos_rest(m));
        lemma_clean_concat(four, scale_rest(m));
        lemma_clean_concat(four, transform_rest(m));
        lemma_clean_no_nl(indented(mode_rest(m)));
        lemma_clean_no_nl(indented(pos_rest(m)));
        lemma_clean_no_nl(indented(scale_rest(m)));
        lemma_clean_no_nl(indented(transform_rest(m)));
    }
}

pub open spec fn all_block_lines(ms: Seq<Monitor>) -> Seq<Seq<char>>
    decreases ms.len(),
{
    if ms.len() == 0 {
        Seq::empty()
    } else {
        all_block_lines(ms.drop_last()) + block_lines(ms.last())
    }
}

pub open spec fn sway_names_ok(ms: Seq<Monitor>) -> bool {
    forall|i: int| 0 <= i < ms.len() ==> sway_name_ok(#[trigger] ms[i].name@)
}

proof fn lemma_all_blocks(ms: Seq<Monitor>, name: Seq<char>)
    requires
        sway_names_ok(ms),
    ensures
        sway_monitors_text(ms) == concat_lines(all_block_lines(ms)),
        no_newlines(all_block_lines(ms)),
        (forall|i: int| 0 <= i < ms.len() ==> (#[trigger] ms[i]).name@ != name) ==> forall|j: int|
            0 <= j < all_block_lines(ms).len() ==> harmless(#[trigger] all_block_lines(ms)[j], name),
    decreases ms.len(),
{
    if ms.len() > 0 {
        let rest = ms.drop_last();
        let m = ms.last();
        assert(sway_names_ok(rest)) by {
            assert forall|i: int| 0 <= i < rest.len() implies sway_name_ok(#[trigger] rest[i].name@) by {
                assert(rest[i] == ms[i]);
            }
        }
        assert(sway_name_ok(ms[ms.len() - 1].name@));
        lemma_all_blocks(rest, name);
        lemma_block_text(m);
        lemma_block_no_nl(m);
        lemma_concat_append(all_block_lines(rest), block_lines(m));
        assert(sway_monitors_text(ms) =~= concat_lines(all_block_lines(ms)));
        let all = all_block_lines(ms);
        let k = all_block_lines(rest).len();
        assert forall|j: int| 0 <= j < all.len() implies !has_char(#[trigger] all[j], '\n') by {
            if j < k {
                assert(all[j] == all_block_lines(rest)[j]);
            } else {
                assert(all[j] == block_lines(m)[j - k]);
            }
        }
        if forall|i: int| 0 <= i < ms.len() ==> (#[trigger] ms[i]).name@ != name {
            assert forall|i: int| 0 <= i < rest.len() implies (#[trigger] rest[i]).name@ != name by {
                assert(rest[i] == ms[i]);
            }
            assert(ms[ms.len() - 1].name@ != name);
            lemma_block_harmless(m, name);
            assert forall|j: int| 0 <= j < all.len() implies harmless(#[trigger] all[j], name) by {
                if j < k {
                    assert(all[j] == all_block_lines(rest)[j]);
                } else {
                    assert(all[j] == block_lines(m)[j - k]);
                }
            }
        }
    }
}

proof fn lemma_all_blocks_append(a: Seq<Monitor>, b: Seq<Monitor>)
    ensures
        all_block_lines(a + b) == all_block_lines(a) + all_block_lines(b),
    decreases b.len(),
{
    if b.len() == 0 {
        assert(a + b =~= a);
        assert(all_block_lines(a) + all_block_lines(b) =~= all_block_lines(a));
    } else {
        assert((a + b).drop_last() =~= a + b.drop_last());
        assert((a + b).last() == b.last());
        lemma_all_blocks_append(a, b.drop_last());
        assert(all_block_lines(a + b) =~= all_block_lines(a) + all_block_lines(b));
    }
}

/// Lines joined by newlines, then more text: those lines, then the lines of the rest.
proof fn lemma_lines_prefix(ls: Seq<Seq<char>>, rest: Seq<char>)
    requires
        no_newlines(ls),
    ensures
        lines_of(concat_lines(ls) + rest) == ls + lines_of(rest),
    decreases ls.len(),
{
    if ls.len() == 0 {
        assert(concat_lines(ls) + rest =~= rest);
        assert(ls + lines_of(rest) =~= lines_of(rest));
    } else {
        let first = seq![ls[0]];
        let tl = ls.drop_first();
        assert(ls =~= first + tl);
        lemma_concat_append(first, tl);
        lemma_concat_one(ls[0]);
        assert(no_newlines(tl)) by {
            assert forall|i: int| 0 <= i < tl.len() implies !has_char(#[trigger] tl[i], '\n') by {
                assert(tl[i] == ls[i + 1]);
            }
        }
        lemma_lines_prefix(tl, rest);
        assert(!has_char(ls[0], '\n'));
        assert(concat_lines(ls) + rest =~= ls[0] + seq!['\n'] + (concat_lines(tl) + rest));
        crate::round_trip::lemma_split_concat(ls[0], concat_lines(tl) + rest, '\n');
        assert(seq![ls[0]] + (tl + lines_of(rest)) =~= ls + lines_of(rest));
    }
}

pub open spec fn sway_header_lines() -> Seq<Seq<char>> {
    seq![header_line(), Seq::<char>::empty()]
}

pub open spec fn workspace_text(ws: Seq<(usize, Seq<char>, bool, bool)>) -> Seq<char> {
    if ws.len() > 0 {
        crate::format::sway_workspace_lines(ws) + "\n\n"@
    } else {
        Seq::<char>::empty()
    }
}

proof fn lemma_sway_file_lines(ms: Seq<Monitor>, ws: Seq<(usize, Seq<char>, bool, bool)>)
    requires
        sway_names_ok(ms),
    ensures
        lines_of(header_text() + sway_config_text(ms, ws)) == sway_header_lines() + all_block_lines(ms)
            + lines_of(workspace_text(ws)),
{
    lemma_all_blocks(ms, Seq::<char>::empty());
    lemma_header_lines();
    let h = sway_header_lines();
    let m = all_block_lines(ms);
    lemma_concat_append(h, m);
    assert(header_text() + sway_config_text(ms, ws) =~= concat_lines(h + m) + workspace_text(ws));
    assert(no_newlines(h + m)) by {
        assert forall|i: int| 0 <= i < (h + m).len() implies !has_char(#[trigger] (h + m)[i], '\n') by {
            if i < 2 {
                assert((h + m)[i] == h[i]);
                assert(!has_char(Seq::<char>::empty(), '\n'));
            } else {
                assert((h + m)[i] == m[i - 2]);
            }
        }
    }
    lemma_lines_prefix(h + m, workspace_text(ws));
}

proof fn lemma_header_harmless(name: Seq<char>)
    ensures
        forall|j: int| 0 <= j < sway_header_lines().len() ==> harmless(#[trigger] sway_header_lines()[j], name),
{
    lemma_header_lines();
    let hl = header_line();
    assert(trim_start(hl) == hl);
    lemma_trim_end_prefix(hl);
    assert(trim(hl)[0] == '#');
    lemma_not_output_harmless(hl, name);
    assert(trim(Seq::<char>::empty()).len() == 0) by {
        assert(trim_start(Seq::<char>::empty()) == Seq::<char>::empty());
    }
    lemma_not_output_harmless(Seq::<char>::empty(), name);
}

/// Formatting then parsing, for Sway: reading back the file that the
/// formatter writes gives each enabled output its own position, when output
/// names are distinct, non-empty, without blanks and without braces.
#[verifier::rlimit(80)]
pub proof fn lemma_sway_round_trip(
    ms: Seq<Monitor>,
    ws: Seq<(usize, Seq<char>, bool, bool)>,
    k: int,
)
    requires
        0 <= k < ms.len(),
        ms[k].enabled,
        sway_names_ok(ms),
        forall|i: int, j: int| 0 <= i < j < ms.len() ==> (#[trigger] ms[i]).name@ != (#[trigger] ms[j]).name@,
    ensures
        crate::parse::sway_saved_position(header_text() + sway_config_text(ms, ws), ms[k].name@)
            == Some(SavedPosition { x: ms[k].x, y: ms[k].y }),
{
    let name = ms[k].name@;
    let pre = ms.subrange(0, k);
    let post = ms.subrange(k + 1, ms.len() as int);
    assert(ms =~= pre + seq![ms[k]] + post);
    lemma_all_blocks_append(pre + seq![ms[k]], post);
    lemma_all_blocks_append(pre, seq![ms[k]]);
    assert(seq![ms[k]].drop_last() =~= Seq::<Monitor>::empty());
    assert(seq![ms[k]].last() == ms[k]);
    assert(all_block_lines(Seq::<Monitor>::empty()) == Seq::<Seq<char>>::empty());
    assert(all_block_lines(seq![ms[k]]) == all_block_lines(seq![ms[k]].drop_last()) + block_lines(seq![ms[k]].last()));
    assert(all_block_lines(seq![ms[k]]) =~= block_lines(ms[k]));
    assert(sway_names_ok(pre)) by {
        assert forall|i: int| 0 <= i < pre.len() implies sway_name_ok(#[trigger] pre[i].name@) by {
            assert(pre[i] == ms[i]);
        }
    }
    assert forall|i: int| 0 <= i < pre.len() implies (#[trigger] pre[i]).name@ != name by {
        assert(pre[i] == ms[i]);
    }
    lemma_all_blocks(pre, name);
    lemma_sway_file_lines(ms, ws);
    lemma_header_harmless(name);
    let h = sway_header_lines();
    let tail = lines_of(workspace_text(ws));
    let a = h + all_block_lines(pre);
    let b = block_lines(ms[k]) + (all_block_lines(post) + tail);
    assert(h + all_block_lines(ms) + tail =~= a + b);
    assert forall|j: int| 0 <= j < a.len() implies harmless(#[trigger] a[j], name) by {
        if j < 2 {
            assert(a[j] == h[j]);
        } else {
            assert(a[j] == all_block_lines(pre)[j - 2]);
        }
    }
    let st0: (Option<Seq<char>>, bool) = (None, false);
    lemma_scan_harmless(a, st0, name);
    lemma_scan_concat(a, b, st0, name);
    assert(sway_name_ok(ms[k].name@));
    lemma_block_hit(ms[k], state_after(a, st0));
    lemma_scan_concat(block_lines(ms[k]), all_block_lines(post) + tail, state_after(a, st0), name);
}

} // verus!
