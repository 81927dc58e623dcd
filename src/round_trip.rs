//! Reading back what the Hyprland formatter writes.
use vstd::prelude::*;

use crate::compositor::Compositor;
use crate::format::{
    config_file_spec, current_mode_spec, header_text, hypr_config_text, hypr_monitor_line,
    hypr_monitor_text, hypr_monitors_text, hypr_transform_char, hypr_workspace_text,
    hypr_workspaces_text, mode_text, scale_text, two_digits,
};
use crate::output::{Monitor, Transform};
use crate::parse::{
    has_disable_field, hypr_directive_body, hypr_line_position, hypr_position_in_lines,
    hypr_saved_position, lemma_no_directive_no_position, strip_assign, xy_spec, SavedPosition,
};
use crate::text::{
    after_prefix, all_digits, digit_char, digit_value, digits_value, has_char,
    int_text, is_digit, is_first_index, is_ws, lemma_first_index_none, lemma_first_index_unique,
    lines_of, nat_text, parse_i32_spec, signed_value, split_on, starts_with, trim, trim_end,
    trim_start,
};

verus! {

broadcast use vstd::string::group_string_axioms;

/// Splitting `a`, `sep`, `b` on `sep` gives `a`, then the pieces of `b`.
pub proof fn lemma_split_concat(a: Seq<char>, b: Seq<char>, sep: char)
    requires
        !has_char(a, sep),
    ensures
        split_on(a + seq![sep] + b, sep) == seq![a] + split_on(b, sep),
{
    let s = a + seq![sep] + b;
    assert(s[a.len() as int] == sep);
    assert forall|j: int| 0 <= j < a.len() implies s[j] != sep by {
        assert(s[j] == a[j]);
    }
    assert(is_first_index(s, sep, a.len() as int));
    lemma_first_index_unique(s, sep, a.len() as int);
    assert(s.subrange(0, a.len() as int) =~= a);
    assert(s.subrange(a.len() as int + 1, s.len() as int) =~= b);
}

/// A text without `sep` is one piece.
pub proof fn lemma_split_single(a: Seq<char>, sep: char)
    requires
        !has_char(a, sep),
    ensures
        split_on(a, sep) == seq![a],
{
    lemma_first_index_none(a, sep);
}

/// Text that starts and ends with a non-blank character is its own trim.
pub proof fn lemma_trim_noop(s: Seq<char>)
    requires
        s.len() > 0,
        !is_ws(s[0]),
        !is_ws(s.last()),
    ensures
        trim(s) == s,
{
    assert(trim_start(s) == s);
}

/// `" " + p` trims to `p` when `p` starts and ends non-blank.
pub proof fn lemma_trim_space(p: Seq<char>)
    requires
        p.len() > 0,
        !is_ws(p[0]),
        !is_ws(p.last()),
    ensures
        trim(seq![' '] + p) == p,
{
    let s = seq![' '] + p;
    assert(s.drop_first() =~= p);
    assert(trim_start(s) == trim_start(p));
    assert(trim_start(p) == p);
    assert(trim_end(p) == p);
}

/// Decimal digits of a number.
pub open spec fn is_num_char(c: char) -> bool {
    is_digit(c) || c == '-'
}

pub proof fn lemma_nat_text(n: nat)
    ensures
        nat_text(n).len() > 0,
        all_digits(nat_text(n)),
        digits_value(nat_text(n)) == n,
    decreases n,
{
    if n >= 10 {
        lemma_nat_text(n / 10);
        let t = nat_text(n / 10).push(digit_char(n % 10));
        assert(t.drop_last() =~= nat_text(n / 10));
        assert forall|i: int| 0 <= i < t.len() implies is_digit(#[trigger] t[i]) by {
            if i < t.len() - 1 {
                assert(t[i] == nat_text(n / 10)[i]);
            }
        }
        assert(digit_value(digit_char(n % 10)) == n % 10);
        assert(t.last() == digit_char(n % 10));
        assert(nat_text(n) == t);
        assert((n / 10) * 10 + n % 10 == n) by (nonlinear_arith);
        assert(digits_value(t) == digits_value(nat_text(n / 10)) * 10 + digit_value(t.last()));
    } else {
        assert(digit_value(digit_char(n)) == n);
        let t = nat_text(n);
        assert(t == seq![digit_char(n)]);
        assert(t.drop_last() =~= Seq::<char>::empty());
        assert(digits_value(t) == digits_value(t.drop_last()) * 10 + digit_value(t.last()));
    }
}

/// The decimal text of an `i32` reads back as that number.
pub proof fn lemma_int_text_parses(i: i32)
    ensures
        parse_i32_spec(int_text(i as int)) == Some(i),
        int_text(i as int).len() > 0,
        forall|j: int| 0 <= j < int_text(i as int).len() ==> is_num_char(#[trigger] int_text(i as int)[j]),
        is_digit(int_text(i as int).last()),
        int_text(i as int)[0] != 'd' && int_text(i as int)[0] != 't',
{
    if i < 0 {
        let n = (-i) as nat;
        lemma_nat_text(n);
        let t = seq!['-'] + nat_text(n);
        assert(t.drop_first() =~= nat_text(n));
        assert(t[0] == '-');
        assert(signed_value(t) == Some(-(n as int)));
        assert forall|j: int| 0 <= j < t.len() implies is_num_char(#[trigger] t[j]) by {
            if j > 0 {
                assert(t[j] == nat_text(n)[j - 1]);
            }
        }
        assert(t.last() == nat_text(n).last());
        assert(is_digit(nat_text(n)[nat_text(n).len() - 1]));
    } else {
        let n = i as nat;
        lemma_nat_text(n);
        let t = nat_text(n);
        assert(is_digit(t[0]));
        assert(is_digit(t[t.len() - 1]));
        assert forall|j: int| 0 <= j < t.len() implies is_num_char(#[trigger] t[j]) by {
            assert(is_digit(t[j]));
        }
    }
}

pub open spec fn safe_char(c: char) -> bool {
    c != ',' && c != '\n' && !is_ws(c)
}

/// A field the formatter writes: non-empty, without commas, newlines or
/// blanks, and not starting with `d`.
pub open spec fn field_ok(t: Seq<char>) -> bool {
    &&& t.len() > 0
    &&& forall|j: int| 0 <= j < t.len() ==> safe_char(#[trigger] t[j])
    &&& t[0] != 'd'
}

/// An output name that the Hyprland dialect carries unchanged.
pub open spec fn plain_name(n: Seq<char>) -> bool {
    &&& n.len() > 0
    &&& !is_ws(n[0])
    &&& !is_ws(n.last())
    &&& n[0] != '='
    &&& !has_char(n, ',')
    &&& !has_char(n, '\n')
    &&& n != "disable"@
}

pub proof fn lemma_field_join(a: Seq<char>, c: char, b: Seq<char>)
    requires
        field_ok(a),
        field_ok(b) || (b.len() > 0 && forall|j: int| 0 <= j < b.len() ==> safe_char(#[trigger] b[j])),
        safe_char(c),
    ensures
        field_ok(a + seq![c] + b),
{
    let t = a + seq![c] + b;
    assert forall|j: int| 0 <= j < t.len() implies safe_char(#[trigger] t[j]) by {
        if j < a.len() {
            assert(t[j] == a[j]);
        } else if j == a.len() {
        } else {
            assert(t[j] == b[j - a.len() - 1]);
        }
    }
}

pub proof fn lemma_int_field(i: i32)
    ensures
        field_ok(int_text(i as int)),
        !has_char(int_text(i as int), 'x'),
{
    lemma_int_text_parses(i);
    let t = int_text(i as int);
    assert forall|j: int| 0 <= j < t.len() implies safe_char(#[trigger] t[j]) by {
        assert(is_num_char(t[j]));
    }
    assert forall|j: int| 0 <= j < t.len() implies t[j] != 'x' by {
        assert(is_num_char(t[j]));
    }
}

pub proof fn lemma_nat_field(n: nat)
    ensures
        field_ok(nat_text(n)),
{
    lemma_nat_text(n);
    let t = nat_text(n);
    assert forall|j: int| 0 <= j < t.len() implies safe_char(#[trigger] t[j]) by {
        assert(is_digit(t[j]));
    }
    assert(is_digit(t[0]));
}

pub proof fn lemma_scale_field(c: u32)
    ensures
        field_ok(scale_text(c)),
        is_digit(scale_text(c).last()),
{
    reveal_strlit(".");
    lemma_nat_text((c / 100) as nat);
    lemma_nat_field((c / 100) as nat);
    let n = nat_text((c / 100) as nat);
    assert(is_digit(n[n.len() - 1]));
    if c % 100 != 0 {
        let d = two_digits((c % 100) as nat);
        assert(d[0] == digit_char(((c % 100) as nat) / 10));
        assert(is_digit(d[0]) && is_digit(d[1]));
        assert(field_ok(d));
        assert(scale_text(c) =~= n + seq!['.'] + d);
        lemma_field_join(n, '.', d);
    }
}

pub proof fn lemma_mode_field(m: Monitor)
    ensures
        field_ok(mode_text(m)),
        is_digit(mode_text(m).last()),
{
    reveal_strlit("x");
    reveal_strlit("@");
    let md = current_mode_spec(m);
    lemma_int_field(md.0);
    lemma_int_field(md.1);
    lemma_int_field(md.2);
    lemma_int_text_parses(md.2);
    let a = int_text(md.0 as int);
    let b = int_text(md.1 as int);
    let r = int_text(md.2 as int);
    lemma_field_join(a, 'x', b);
    lemma_field_join(a + seq!['x'] + b, '@', r);
    assert(mode_text(m) =~= (a + seq!['x'] + b) + seq!['@'] + r);
    assert(mode_text(m).last() == r.last());
}

/// `" " + t` trims to `t` and is not `disable`.
proof fn lemma_field_part(t: Seq<char>)
    requires
        field_ok(t),
    ensures
        trim(seq![' '] + t) == t,
        trim(seq![' '] + t) != "disable"@,
{
    reveal_strlit("disable");
    assert(safe_char(t[t.len() - 1]));
    lemma_trim_space(t);
    assert("disable"@[0] == 'd');
}

/// The fields of a formatted line after the name, as split on commas.
pub open spec fn tail_parts(m: Monitor) -> Seq<Seq<char>> {
    let xy = int_text(m.x as int) + seq!['x'] + int_text(m.y as int);
    let s = seq![' '] + scale_text(m.scale);
    if m.transform != Transform::Normal {
        seq![seq![' '] + mode_text(m), seq![' '] + xy, s, " transform"@, seq![' ', hypr_transform_char(m.transform)]]
    } else {
        seq![seq![' '] + mode_text(m), seq![' '] + xy, s]
    }
}

pub open spec fn xy_text(m: Monitor) -> Seq<char> {
    int_text(m.x as int) + seq!['x'] + int_text(m.y as int)
}

/// The fields after the position: the scale, then the transform if any.
pub open spec fn rest_text(m: Monitor) -> Seq<char> {
    if m.transform == Transform::Normal {
        seq![' '] + scale_text(m.scale)
    } else {
        seq![' '] + scale_text(m.scale) + seq![','] + " transform"@ + seq![','] + seq![
            ' ',
            hypr_transform_char(m.transform),
        ]
    }
}

/// What follows `monitor = ` on a formatted line.
pub open spec fn line_body(m: Monitor) -> Seq<char> {
    m.name@ + seq![','] + (seq![' '] + mode_text(m)) + seq![','] + (seq![' '] + xy_text(m)) + seq![
        ',',
    ] + rest_text(m)
}

proof fn lemma_pieces(m: Monitor)
    ensures
        field_ok(mode_text(m)),
        field_ok(xy_text(m)),
        field_ok(scale_text(m.scale)),
        is_digit(scale_text(m.scale).last()),
        rest_text(m).len() > 0,
        !is_ws(rest_text(m).last()),
{
    reveal_strlit(" transform");
    lemma_mode_field(m);
    lemma_int_field(m.x);
    lemma_int_field(m.y);
    lemma_scale_field(m.scale);
    lemma_field_join(int_text(m.x as int), 'x', int_text(m.y as int));
    let sc = scale_text(m.scale);
    if m.transform == Transform::Normal {
        assert(rest_text(m).last() == sc.last());
    } else {
        assert(rest_text(m).last() == hypr_transform_char(m.transform));
    }
}

proof fn lemma_strip_eq_sign(body: Seq<char>)
    requires
        body.len() > 0,
        body[0] != ' ' && body[0] != '=',
    ensures
        strip_assign(seq![' ', '=', ' '] + body) == body,
{
    let a = seq![' ', '=', ' '] + body;
    let b = seq!['=', ' '] + body;
    let c = seq![' '] + body;
    assert(a[0] == ' ');
    assert(a.drop_first() =~= b);
    assert(b[0] == '=');
    assert(b.drop_first() =~= c);
    assert(c[0] == ' ');
    assert(c.drop_first() =~= body);
    assert(strip_assign(body) == body);
    assert(strip_assign(c) == body);
    assert(strip_assign(b) == body);
}

#[verifier::rlimit(50)]
proof fn lemma_line_shape(m: Monitor)
    ensures
        hypr_monitor_line(m) =~= "monitor"@ + seq![' ', '=', ' '] + line_body(m),
{
    reveal_strlit("monitor");
    reveal_strlit("monitor = ");
    reveal_strlit(", ");
    reveal_strlit("x");
    reveal_strlit(", transform, ");
    reveal_strlit(" transform");
}

proof fn lemma_line_body(m: Monitor)
    requires
        plain_name(m.name@),
    ensures
        hypr_directive_body(hypr_monitor_line(m)) == Some(line_body(m)),
{
    reveal_strlit("monitor");
    lemma_pieces(m);
    lemma_line_shape(m);
    let body = line_body(m);
    let line = hypr_monitor_line(m);
    let after = seq![' ', '=', ' '] + body;
    assert(line == "monitor"@ + after);
    assert(line[0] == 'm');
    assert(line.last() == rest_text(m).last());
    lemma_trim_noop(line);
    assert(line.subrange(0, 7) =~= "monitor"@);
    assert(after_prefix(line, "monitor"@) =~= after);
    assert(body[0] == m.name@[0]);
    lemma_strip_eq_sign(body);
    assert(body.last() == rest_text(m).last());
    lemma_trim_noop(body);
}

proof fn lemma_no_comma(t: Seq<char>)
    requires
        field_ok(t),
    ensures
        !has_char(seq![' '] + t, ','),
{
    let p = seq![' '] + t;
    assert forall|j: int| 0 <= j < p.len() implies p[j] != ',' by {
        if j > 0 {
            assert(p[j] == t[j - 1]);
            assert(safe_char(t[j - 1]));
        }
    }
}

proof fn lemma_body_parts(m: Monitor)
    requires
        plain_name(m.name@),
    ensures
        split_on(line_body(m), ',') == seq![m.name@] + tail_parts(m),
{
    reveal_strlit(" transform");
    lemma_pieces(m);
    let n = m.name@;
    let mode_field = seq![' '] + mode_text(m);
    let xy_field = seq![' '] + xy_text(m);
    let rest = rest_text(m);
    assert(line_body(m) =~= n + seq![','] + (mode_field + seq![','] + (xy_field + seq![','] + rest)));
    lemma_split_concat(n, mode_field + seq![','] + (xy_field + seq![','] + rest), ',');
    lemma_no_comma(mode_text(m));
    lemma_split_concat(mode_field, xy_field + seq![','] + rest, ',');
    lemma_no_comma(xy_text(m));
    lemma_split_concat(xy_field, rest, ',');
    let ps = seq![' '] + scale_text(m.scale);
    lemma_no_comma(scale_text(m.scale));
    if m.transform == Transform::Normal {
        lemma_split_single(ps, ',');
    } else {
        let tr = " transform"@;
        let d = seq![' ', hypr_transform_char(m.transform)];
        assert(!has_char(tr, ','));
        assert(!has_char(d, ','));
        assert(rest =~= ps + seq![','] + (tr + seq![','] + d));
        lemma_split_concat(ps, tr + seq![','] + d, ',');
        lemma_split_concat(tr, d, ',');
        lemma_split_single(d, ',');
    }
    assert(split_on(line_body(m), ',') =~= seq![n] + tail_parts(m));
}

proof fn lemma_tail_parts(m: Monitor)
    ensures
        forall|k: int| 0 <= k < tail_parts(m).len() ==> trim(#[trigger] tail_parts(m)[k]) != "disable"@,
        tail_parts(m).len() >= 3,
        trim(tail_parts(m)[1]) == xy_text(m),
        xy_spec(xy_text(m)) == Some((m.x, m.y)),
{
    reveal_strlit("disable");
    reveal_strlit(" transform");
    reveal_strlit("transform");
    lemma_pieces(m);
    lemma_field_part(mode_text(m));
    lemma_field_part(xy_text(m));
    lemma_field_part(scale_text(m.scale));
    if m.transform != Transform::Normal {
        let t = " transform"@;
        assert(seq![' '] + "transform"@ =~= t);
        assert("transform"@.last() == 'm');
        lemma_trim_space("transform"@);
        assert("transform"@[0] != "disable"@[0]);
        let d = hypr_transform_char(m.transform);
        assert(seq![' '] + seq![d] =~= seq![' ', d]);
        lemma_trim_space(seq![d]);
        assert(seq![d].len() != "disable"@.len());
    }
    let ix = int_text(m.x as int);
    let iy = int_text(m.y as int);
    let xy = xy_text(m);
    lemma_int_field(m.x);
    lemma_int_field(m.y);
    lemma_int_text_parses(m.x);
    lemma_int_text_parses(m.y);
    assert(is_first_index(xy, 'x', ix.len() as int)) by {
        assert forall|j: int| 0 <= j < ix.len() implies xy[j] != 'x' by {
            assert(xy[j] == ix[j]);
        }
    }
    lemma_first_index_unique(xy, 'x', ix.len() as int);
    assert(xy.subrange(0, ix.len() as int) =~= ix);
    assert(xy.subrange(ix.len() as int + 1, xy.len() as int) =~= iy);
    assert(safe_char(ix[ix.len() - 1]));
    assert(safe_char(iy[iy.len() - 1]));
    lemma_trim_noop(ix);
    lemma_trim_noop(iy);
}

/// A formatted `monitor` line gives its own output its position, and no
/// other output any.
pub proof fn lemma_monitor_line_position(m: Monitor, name: Seq<char>)
    requires
        plain_name(m.name@),
    ensures
        hypr_line_position(hypr_monitor_line(m), name) == if m.name@ == name {
            Some(SavedPosition { x: m.x, y: m.y })
        } else {
            None
        },
{
    reveal_strlit("disable");
    lemma_line_body(m);
    lemma_body_parts(m);
    lemma_tail_parts(m);
    let parts = split_on(line_body(m), ',');
    let n = m.name@;
    lemma_trim_noop(n);
    assert(parts[0] == n);
    assert(!has_disable_field(parts)) by {
        if has_disable_field(parts) {
            let k = choose|k: int| 0 <= k < parts.len() && trim(#[trigger] parts[k]) == "disable"@;
            if k > 0 {
                assert(parts[k] == tail_parts(m)[k - 1]);
            }
        }
    }
    assert(parts[2] == tail_parts(m)[1]);
}

pub proof fn lemma_has_char_concat(a: Seq<char>, b: Seq<char>, c: char)
    ensures
        has_char(a + b, c) == (has_char(a, c) || has_char(b, c)),
{
    let t = a + b;
    if has_char(t, c) {
        let i = choose|i: int| 0 <= i < t.len() && t[i] == c;
        if i < a.len() {
            assert(a[i] == c);
        } else {
            assert(b[i - a.len()] == c);
        }
    }
    if has_char(a, c) {
        let i = choose|i: int| 0 <= i < a.len() && a[i] == c;
        assert(t[i] == c);
    }
    if has_char(b, c) {
        let i = choose|i: int| 0 <= i < b.len() && b[i] == c;
        assert(t[a.len() + i] == c);
    }
}

/// The lines, each followed by a newline.
pub open spec fn concat_lines(ls: Seq<Seq<char>>) -> Seq<char>
    decreases ls.len(),
{
    if ls.len() == 0 {
        Seq::empty()
    } else {
        concat_lines(ls.drop_last()) + ls.last() + seq!['\n']
    }
}

pub proof fn lemma_concat_append(a: Seq<Seq<char>>, b: Seq<Seq<char>>)
    ensures
        concat_lines(a + b) == concat_lines(a) + concat_lines(b),
    decreases b.len(),
{
    if b.len() == 0 {
        assert(a + b =~= a);
        assert(concat_lines(a) + concat_lines(b) =~= concat_lines(a));
    } else {
        assert((a + b).drop_last() =~= a + b.drop_last());
        assert((a + b).last() == b.last());
        lemma_concat_append(a, b.drop_last());
        assert(concat_lines(a + b) =~= concat_lines(a) + concat_lines(b));
    }
}

pub open spec fn no_newlines(ls: Seq<Seq<char>>) -> bool {
    forall|i: int| 0 <= i < ls.len() ==> !has_char(#[trigger] ls[i], '\n')
}

/// Lines joined by newlines split back into those lines and an empty last one.
pub proof fn lemma_lines_of_concat(ls: Seq<Seq<char>>)
    requires
        no_newlines(ls),
    ensures
        lines_of(concat_lines(ls)) == ls + seq![Seq::<char>::empty()],
    decreases ls.len(),
{
    if ls.len() == 0 {
        lemma_split_single(Seq::<char>::empty(), '\n');
        assert(ls + seq![Seq::<char>::empty()] =~= seq![Seq::<char>::empty()]);
    } else {
        let first = seq![ls[0]];
        let rest = ls.drop_first();
        assert(ls =~= first + rest);
        lemma_concat_append(first, rest);
        assert(first.drop_last() =~= Seq::<Seq<char>>::empty());
        assert(first.last() == ls[0]);
        assert(concat_lines(first.drop_last()) == Seq::<char>::empty());
        assert(concat_lines(first) == concat_lines(first.drop_last()) + first.last() + seq!['\n']);
        assert(concat_lines(first) =~= ls[0] + seq!['\n']);
        assert(no_newlines(rest)) by {
            assert forall|i: int| 0 <= i < rest.len() implies !has_char(#[trigger] rest[i], '\n') by {
                assert(rest[i] == ls[i + 1]);
            }
        }
        lemma_lines_of_concat(rest);
        assert(!has_char(ls[0], '\n'));
        assert(concat_lines(ls) =~= ls[0] + seq!['\n'] + concat_lines(rest));
        lemma_split_concat(ls[0], concat_lines(rest), '\n');
        assert(seq![ls[0]] + (rest + seq![Seq::<char>::empty()]) =~= ls + seq![Seq::<char>::empty()]);
    }
}

/// Where two runs of lines meet, a position found in the later one wins.
pub proof fn lemma_position_concat(a: Seq<Seq<char>>, b: Seq<Seq<char>>, name: Seq<char>)
    ensures
        hypr_position_in_lines(a + b, name) == if hypr_position_in_lines(b, name) is Some {
            hypr_position_in_lines(b, name)
        } else {
            hypr_position_in_lines(a, name)
        },
    decreases b.len(),
{
    if b.len() == 0 {
        assert(a + b =~= a);
    } else {
        assert((a + b).drop_last() =~= a + b.drop_last());
        assert((a + b).last() == b.last());
        lemma_position_concat(a, b.drop_last(), name);
    }
}

pub proof fn lemma_trim_end_prefix(s: Seq<char>)
    ensures
        trim_end(s).len() <= s.len(),
        trim_end(s) =~= s.subrange(0, trim_end(s).len() as int),
        s.len() > 0 && !is_ws(s[0]) ==> trim_end(s).len() > 0,
    decreases s.len(),
{
    if s.len() > 0 && is_ws(s.last()) {
        lemma_trim_end_prefix(s.drop_last());
        if s.len() == 1 {
            assert(is_ws(s[0]));
        }
    }
}

/// A line that starts with a non-blank character other than `m` gives no position.
pub proof fn lemma_other_line(line: Seq<char>, name: Seq<char>)
    requires
        line.len() == 0 || (!is_ws(line[0]) && line[0] != 'm'),
    ensures
        hypr_line_position(line, name) is None,
{
    reveal_strlit("monitor");
    if line.len() > 0 {
        assert(trim_start(line) == line);
        lemma_trim_end_prefix(line);
        let t = trim(line);
        assert(t[0] == line[0]);
        if starts_with(t, "monitor"@) {
            assert(t.subrange(0, 7)[0] == "monitor"@[0]);
        }
    } else {
        assert(trim_start(line) == line);
        assert(trim(line).len() == 0);
    }
}

/// `monitor = <name>, disable`
pub open spec fn disable_line(m: Monitor) -> Seq<char> {
    "monitor = "@ + m.name@ + ", disable"@
}

proof fn lemma_disable_line(m: Monitor, name: Seq<char>)
    requires
        plain_name(m.name@),
    ensures
        hypr_line_position(disable_line(m), name) is None,
        !has_char(disable_line(m), '\n'),
{
    reveal_strlit("monitor");
    reveal_strlit("monitor = ");
    reveal_strlit(", disable");
    reveal_strlit("disable");
    let n = m.name@;
    let body = n + seq![','] + seq![' ', 'd', 'i', 's', 'a', 'b', 'l', 'e'];
    let line = disable_line(m);
    assert(line =~= "monitor"@ + seq![' ', '=', ' '] + body);
    assert(line[0] == 'm');
    assert(line.last() == 'e');
    lemma_trim_noop(line);
    assert(line.subrange(0, 7) =~= "monitor"@);
    let after = seq![' ', '=', ' '] + body;
    assert(after_prefix(line, "monitor"@) =~= after);
    assert(body[0] == n[0]);
    lemma_strip_eq_sign(body);
    assert(body.last() == 'e');
    lemma_trim_noop(body);
    let dis = seq![' ', 'd', 'i', 's', 'a', 'b', 'l', 'e'];
    assert(!has_char(dis, ','));
    lemma_split_concat(n, dis, ',');
    lemma_split_single(dis, ',');
    let parts = split_on(body, ',');
    assert(parts =~= seq![n, dis]);
    lemma_trim_noop(n);
    let word = seq!['d', 'i', 's', 'a', 'b', 'l', 'e'];
    assert(seq![' '] + word =~= dis);
    lemma_trim_space(word);
    assert(word =~= "disable"@);
    assert(trim(parts[1]) == "disable"@);
    assert(has_disable_field(parts));
    lemma_has_char_concat("monitor = "@ + n, ", disable"@, '\n');
    lemma_has_char_concat("monitor = "@, n, '\n');
}

pub proof fn lemma_concat_one(l: Seq<char>)
    ensures
        concat_lines(seq![l]) == l + seq!['\n'],
{
    let one = seq![l];
    assert(one.last() == l);
    assert(one.drop_last() =~= Seq::<Seq<char>>::empty());
    assert(concat_lines(one.drop_last()) == Seq::<char>::empty());
    assert(concat_lines(one) =~= l + seq!['\n']);
}

proof fn lemma_pos_one(l: Seq<char>, name: Seq<char>)
    ensures
        hypr_position_in_lines(seq![l], name) == hypr_line_position(l, name),
{
    let one = seq![l];
    assert(one.last() == l);
    assert(one.drop_last() =~= Seq::<Seq<char>>::empty());
    assert(hypr_position_in_lines(one.drop_last(), name) is None);
    assert(one.len() == 1);
    assert(hypr_position_in_lines(one, name) == match hypr_line_position(one.last(), name) {
        Some(p) => Some(p),
        None => hypr_position_in_lines(one.drop_last(), name),
    });
}

pub open spec fn monitor_lines(m: Monitor) -> Seq<Seq<char>> {
    if m.enabled {
        seq![hypr_monitor_line(m)]
    } else {
        seq![hypr_monitor_line(m), disable_line(m)]
    }
}

pub open spec fn all_monitor_lines(ms: Seq<Monitor>) -> Seq<Seq<char>>
    decreases ms.len(),
{
    if ms.len() == 0 {
        Seq::empty()
    } else {
        all_monitor_lines(ms.drop_last()) + monitor_lines(ms.last())
    }
}

/// The position the formatter gave the last output named `name`.
pub open spec fn written_position(ms: Seq<Monitor>, name: Seq<char>) -> Option<SavedPosition>
    decreases ms.len(),
{
    if ms.len() == 0 {
        None
    } else if ms.last().name@ == name {
        Some(SavedPosition { x: ms.last().x, y: ms.last().y })
    } else {
        written_position(ms.drop_last(), name)
    }
}

proof fn lemma_no_nl_concat(a: Seq<char>, b: Seq<char>)
    requires
        !has_char(a, '\n'),
        !has_char(b, '\n'),
    ensures
        !has_char(a + b, '\n'),
{
    lemma_has_char_concat(a, b, '\n');
}

proof fn lemma_field_no_nl(t: Seq<char>)
    requires
        forall|j: int| 0 <= j < t.len() ==> safe_char(#[trigger] t[j]),
    ensures
        !has_char(t, '\n'),
{
    if has_char(t, '\n') {
        let i = choose|i: int| 0 <= i < t.len() && t[i] == '\n';
        assert(safe_char(t[i]));
    }
}

proof fn lemma_monitor_line_no_nl(m: Monitor)
    requires
        plain_name(m.name@),
    ensures
        !has_char(hypr_monitor_line(m), '\n'),
{
    reveal_strlit("monitor");
    reveal_strlit(" transform");
    lemma_pieces(m);
    lemma_line_shape(m);
    let sp = seq![' '];
    let cm = seq![','];
    assert(!has_char(sp, '\n'));
    assert(!has_char(cm, '\n'));
    lemma_field_no_nl(mode_text(m));
    lemma_field_no_nl(xy_text(m));
    lemma_field_no_nl(scale_text(m.scale));
    lemma_no_nl_concat(sp, mode_text(m));
    lemma_no_nl_concat(sp, xy_text(m));
    lemma_no_nl_concat(sp, scale_text(m.scale));
    if m.transform != Transform::Normal {
        let tail = seq![' '] + scale_text(m.scale) + cm + " transform"@ + cm + seq![' ', hypr_transform_char(m.transform)];
        assert(!has_char(" transform"@, '\n'));
        assert(!has_char(seq![' ', hypr_transform_char(m.transform)], '\n'));
        lemma_no_nl_concat(seq![' '] + scale_text(m.scale), cm);
        lemma_no_nl_concat(seq![' '] + scale_text(m.scale) + cm, " transform"@);
        lemma_no_nl_concat(seq![' '] + scale_text(m.scale) + cm + " transform"@, cm);
        lemma_no_nl_concat(seq![' '] + scale_text(m.scale) + cm + " transform"@ + cm, seq![' ', hypr_transform_char(m.transform)]);
    }
    let n = m.name@;
    let a1 = n + cm;
    lemma_no_nl_concat(n, cm);
    lemma_no_nl_concat(a1, sp + mode_text(m));
    let a2 = a1 + (sp + mode_text(m));
    lemma_no_nl_concat(a2, cm);
    lemma_no_nl_concat(a2 + cm, sp + xy_text(m));
    let a3 = a2 + cm + (sp + xy_text(m));
    lemma_no_nl_concat(a3, cm);
    lemma_no_nl_concat(a3 + cm, rest_text(m));
    assert(line_body(m) =~= a3 + cm + rest_text(m));
    let head = "monitor"@ + seq![' ', '=', ' '];
    assert(!has_char(head, '\n'));
    lemma_no_nl_concat(head, line_body(m));
}

proof fn lemma_monitor_text_lines(m: Monitor)
    ensures
        hypr_monitor_text(m) == concat_lines(monitor_lines(m)),
{
    reveal_strlit("\n");
    reveal_strlit(", disable\n");
    reveal_strlit(", disable");
    let l = monitor_lines(m);
    if m.enabled {
        lemma_concat_one(hypr_monitor_line(m));
        assert(hypr_monitor_text(m) =~= hypr_monitor_line(m) + seq!['\n']);
    } else {
        let one = seq![hypr_monitor_line(m)];
        assert(l.drop_last() =~= one);
        assert(l.last() == disable_line(m));
        lemma_concat_one(hypr_monitor_line(m));
        assert(concat_lines(l) =~= hypr_monitor_line(m) + seq!['\n'] + disable_line(m) + seq!['\n']);
        assert(hypr_monitor_text(m) =~= hypr_monitor_line(m) + seq!['\n'] + disable_line(m) + seq!['\n']);
    }
}

proof fn lemma_monitors_text(ms: Seq<Monitor>)
    ensures
        hypr_monitors_text(ms) == concat_lines(all_monitor_lines(ms)),
    decreases ms.len(),
{
    if ms.len() > 0 {
        lemma_monitors_text(ms.drop_last());
        lemma_monitor_text_lines(ms.last());
        lemma_concat_append(all_monitor_lines(ms.drop_last()), monitor_lines(ms.last()));
    }
}

pub open spec fn all_plain(ms: Seq<Monitor>) -> bool {
    forall|i: int| 0 <= i < ms.len() ==> plain_name(#[trigger] ms[i].name@)
}

proof fn lemma_monitor_lines_facts(ms: Seq<Monitor>, name: Seq<char>)
    requires
        all_plain(ms),
    ensures
        no_newlines(all_monitor_lines(ms)),
        hypr_position_in_lines(all_monitor_lines(ms), name) == written_position(ms, name),
    decreases ms.len(),
{
    if ms.len() > 0 {
        let rest = ms.drop_last();
        let m = ms.last();
        assert(all_plain(rest)) by {
            assert forall|i: int| 0 <= i < rest.len() implies plain_name(#[trigger] rest[i].name@) by {
                assert(rest[i] == ms[i]);
            }
        }
        assert(plain_name(ms[ms.len() - 1].name@));
        lemma_monitor_lines_facts(rest, name);
        lemma_monitor_line_position(m, name);
        lemma_monitor_line_no_nl(m);
        let ml = monitor_lines(m);
        lemma_pos_one(hypr_monitor_line(m), name);
        if !m.enabled {
            lemma_disable_line(m, name);
            assert(ml.drop_last() =~= seq![hypr_monitor_line(m)]);
            assert(ml.last() == disable_line(m));
            assert(hypr_position_in_lines(ml, name) == hypr_line_position(hypr_monitor_line(m), name));
        }
        lemma_position_concat(all_monitor_lines(rest), ml, name);
        let all = all_monitor_lines(ms);
        assert(no_newlines(all)) by {
            assert forall|i: int| 0 <= i < all.len() implies !has_char(#[trigger] all[i], '\n') by {
                let k = all_monitor_lines(rest).len();
                if i < k {
                    assert(all[i] == all_monitor_lines(rest)[i]);
                } else {
                    assert(all[i] == ml[i - k]);
                }
            }
        }
    }
}

/// `workspace = ...`, without its newline.
pub open spec fn workspace_line(w: (usize, Seq<char>, bool, bool)) -> Seq<char> {
    "workspace = "@ + nat_text(w.0 as nat) + ", monitor:"@ + w.1 + (if w.2 {
        ",default:true"@
    } else {
        Seq::empty()
    }) + (if w.3 {
        ",persistent:true"@
    } else {
        Seq::empty()
    })
}

pub open spec fn all_workspace_lines(ws: Seq<(usize, Seq<char>, bool, bool)>) -> Seq<Seq<char>>
    decreases ws.len(),
{
    if ws.len() == 0 {
        Seq::empty()
    } else {
        all_workspace_lines(ws.drop_last()) + seq![workspace_line(ws.last())]
    }
}

proof fn lemma_workspace_facts(ws: Seq<(usize, Seq<char>, bool, bool)>, name: Seq<char>)
    requires
        forall|i: int| 0 <= i < ws.len() ==> !has_char(#[trigger] ws[i].1, '\n'),
    ensures
        hypr_workspaces_text(ws) == concat_lines(all_workspace_lines(ws)),
        no_newlines(all_workspace_lines(ws)),
        forall|i: int|
            0 <= i < all_workspace_lines(ws).len() ==> hypr_line_position(
                #[trigger] all_workspace_lines(ws)[i],
                name,
            ) is None,
    decreases ws.len(),
{
    reveal_strlit("workspace = ");
    reveal_strlit(", monitor:");
    reveal_strlit(",default:true");
    reveal_strlit(",persistent:true");
    reveal_strlit("\n");
    if ws.len() > 0 {
        let rest = ws.drop_last();
        let w = ws.last();
        assert forall|i: int| 0 <= i < rest.len() implies !has_char(#[trigger] rest[i].1, '\n') by {
            assert(rest[i] == ws[i]);
        }
        assert(!has_char(ws[ws.len() - 1].1, '\n'));
        lemma_workspace_facts(rest, name);
        let line = workspace_line(w);
        assert(hypr_workspace_text(w) =~= line + seq!['\n']);
        let one = seq![line];
        lemma_concat_one(line);
        lemma_concat_append(all_workspace_lines(rest), one);
        assert(line[0] == 'w');
        lemma_other_line(line, name);
        lemma_nat_field(w.0 as nat);
        lemma_field_no_nl(nat_text(w.0 as nat));
        let id_part = "workspace = "@ + nat_text(w.0 as nat);
        assert(!has_char("workspace = "@, '\n'));
        lemma_no_nl_concat("workspace = "@, nat_text(w.0 as nat));
        assert(!has_char(", monitor:"@, '\n'));
        lemma_no_nl_concat(id_part, ", monitor:"@);
        lemma_no_nl_concat(id_part + ", monitor:"@, w.1);
        let name_part = id_part + ", monitor:"@ + w.1;
        let d = if w.2 { ",default:true"@ } else { Seq::<char>::empty() };
        let q = if w.3 { ",persistent:true"@ } else { Seq::<char>::empty() };
        assert(!has_char(d, '\n'));
        assert(!has_char(q, '\n'));
        lemma_no_nl_concat(name_part, d);
        lemma_no_nl_concat(name_part + d, q);
        assert(line =~= name_part + d + q);
        let all = all_workspace_lines(ws);
        let k = all_workspace_lines(rest).len();
        assert forall|i: int| 0 <= i < all.len() implies !has_char(#[trigger] all[i], '\n') by {
            if i < k {
                assert(all[i] == all_workspace_lines(rest)[i]);
            }
        }
        assert forall|i: int| 0 <= i < all.len() implies hypr_line_position(#[trigger] all[i], name) is None by {
            if i < k {
                assert(all[i] == all_workspace_lines(rest)[i]);
            }
        }
    }
}

pub open spec fn header_line() -> Seq<char> {
    "# This file is managed by xwlm. Do not edit manually."@
}

pub proof fn lemma_header_lines()
    ensures
        header_text() == concat_lines(seq![header_line(), Seq::<char>::empty()]),
        !has_char(header_line(), '\n'),
        header_line().len() > 0 && header_line()[0] == '#',
{
    reveal_strlit("# This file is managed by xwlm. Do not edit manually.\n\n");
    reveal_strlit("# This file is managed by xwlm. Do not edit manually.");
    let h = seq![header_line(), Seq::<char>::empty()];
    lemma_concat_append(seq![header_line()], seq![Seq::<char>::empty()]);
    assert(seq![header_line()] + seq![Seq::<char>::empty()] =~= h);
    lemma_concat_one(header_line());
    lemma_concat_one(Seq::<char>::empty());
    assert(header_text() =~= concat_lines(h));
    let t = header_line();
    assert forall|i: int| 0 <= i < t.len() implies t[i] != '\n' by {}
}

/// Formatting then parsing, for Hyprland: reading back the file that the
/// formatter writes for these outputs and workspace rules gives each output
/// name the position the formatter wrote for it (the last output of that name
/// decides, as in any Hyprland file), disabled outputs included. Output names
/// must be ones the dialect carries unchanged, and workspace output names
/// must not hold a newline.
pub proof fn lemma_hyprland_round_trip(
    ms: Seq<Monitor>,
    ws: Seq<(usize, Seq<char>, bool, bool)>,
    name: Seq<char>,
)
    requires
        all_plain(ms),
        forall|i: int| 0 <= i < ws.len() ==> !has_char(#[trigger] ws[i].1, '\n'),
    ensures
        hypr_saved_position(header_text() + hypr_config_text(ms, ws), name) == written_position(ms, name),
{
    reveal_strlit("\n");
    let e = Seq::<char>::empty();
    let h = seq![header_line(), e];
    let m = all_monitor_lines(ms);
    lemma_header_lines();
    lemma_monitors_text(ms);
    lemma_monitor_lines_facts(ms, name);
    lemma_workspace_facts(ws, name);
    let wl = all_workspace_lines(ws);
    let w = if ws.len() > 0 {
        seq![e] + wl
    } else {
        Seq::<Seq<char>>::empty()
    };
    if ws.len() > 0 {
        lemma_concat_append(seq![e], wl);
        lemma_concat_one(e);
        assert(hypr_config_text(ms, ws) =~= concat_lines(m) + concat_lines(w));
    } else {
        assert(concat_lines(w) == Seq::<char>::empty());
        assert(hypr_config_text(ms, ws) =~= concat_lines(m) + concat_lines(w));
    }
    lemma_concat_append(h, m);
    lemma_concat_append(h + m, w);
    let all = h + m + w;
    assert(header_text() + hypr_config_text(ms, ws) =~= concat_lines(all));
    assert(no_newlines(all)) by {
        assert forall|i: int| 0 <= i < all.len() implies !has_char(#[trigger] all[i], '\n') by {
            if i < 2 {
                assert(all[i] == h[i]);
            } else if i < 2 + m.len() {
                assert(all[i] == m[i - 2]);
            } else if ws.len() > 0 {
                assert(all[i] == w[i - 2 - m.len()]);
                if i > 2 + m.len() {
                    assert(w[i - 2 - m.len()] == wl[i - 3 - m.len()]);
                }
            }
        }
    }
    lemma_lines_of_concat(all);
    let tail = w + seq![e];
    assert(all + seq![e] =~= (h + m) + tail);
    lemma_other_line(e, name);
    assert forall|j: int| 0 <= j < tail.len() implies hypr_line_position(#[trigger] tail[j], name) is None by {
        if ws.len() > 0 && 0 < j < tail.len() - 1 {
            assert(tail[j] == wl[j - 1]);
        }
    }
    lemma_no_directive_no_position(tail, name);
    lemma_position_concat(h + m, tail, name);
    lemma_position_concat(h, m, name);
    lemma_other_line(header_line(), name);
    assert forall|j: int| 0 <= j < h.len() implies hypr_line_position(#[trigger] h[j], name) is None by {}
    lemma_no_directive_no_position(h, name);
}

/// With distinct names, each output's written position is its own.
pub proof fn lemma_written_position_own(ms: Seq<Monitor>, k: int)
    requires
        0 <= k < ms.len(),
        forall|i: int, j: int| 0 <= i < j < ms.len() ==> (#[trigger] ms[i]).name@ != (#[trigger] ms[j]).name@,
    ensures
        written_position(ms, ms[k].name@) == Some(SavedPosition { x: ms[k].x, y: ms[k].y }),
    decreases ms.len(),
{
    if k < ms.len() - 1 {
        let rest = ms.drop_last();
        assert(ms.last().name@ != ms[k].name@) by {
            assert(ms[k].name@ != ms[ms.len() - 1].name@);
        }
        assert(rest[k] == ms[k]);
        assert forall|i: int, j: int| 0 <= i < j < rest.len() implies (#[trigger] rest[i]).name@ != (#[trigger] rest[j]).name@ by {
            assert(rest[i] == ms[i] && rest[j] == ms[j]);
        }
        lemma_written_position_own(rest, k);
    }
}

/// Round trip through the config file: every output of an arrangement with
/// distinct, plain names reads back at the position it was saved with.
pub proof fn lemma_format_then_parse(
    ms: Seq<Monitor>,
    ws: Seq<(usize, Seq<char>, bool, bool)>,
    k: int,
)
    requires
        0 <= k < ms.len(),
        all_plain(ms),
        forall|i: int, j: int| 0 <= i < j < ms.len() ==> (#[trigger] ms[i]).name@ != (#[trigger] ms[j]).name@,
        forall|i: int| 0 <= i < ws.len() ==> !has_char(#[trigger] ws[i].1, '\n'),
    ensures
        config_file_spec(Compositor::Hyprland, ms, ws) matches Some(text) && hypr_saved_position(
            text,
            ms[k].name@,
        ) == Some(SavedPosition { x: ms[k].x, y: ms[k].y }),
{
    lemma_hyprland_round_trip(ms, ws, ms[k].name@);
    lemma_written_position_own(ms, k);
}

} // verus!
