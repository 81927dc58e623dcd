//! Workspace-to-output rules as the config dialects write them.
use vstd::prelude::*;

use crate::compositor::Compositor;
use crate::text::{
    after_prefix, chars_of, contains_seq, copy_range, find_char, find_ws, first_index, first_ws,
    lines_of, matches_at, parse_usize_at, parse_usize_spec, range_contains, skip_ws, split_on,
    starts_with, string_of, strip_char, strip_char_bounds, trim, trim_bounds, trim_start,
};

verus! {

broadcast use vstd::string::group_string_axioms;

#[derive(Debug, Clone, PartialEq)]
pub struct WorkspaceRule {
    pub id: usize,
    pub monitor: String,
    pub is_default: bool,
    pub is_persistent: bool,
}

impl View for WorkspaceRule {
    type V = (usize, Seq<char>, bool, bool);

    open spec fn view(&self) -> (usize, Seq<char>, bool, bool) {
        (self.id, self.monitor@, self.is_default, self.is_persistent)
    }
}

pub open spec fn rules_view(v: Seq<WorkspaceRule>) -> Seq<(usize, Seq<char>, bool, bool)> {
    v.map_values(|w: WorkspaceRule| w@)
}

/// The output named by the tail of a Hyprland workspace rule: the text after
/// `monitor:` up to the next comma, without quotes or colons round it; or,
/// without `monitor:`, the first comma-separated field.
pub open spec fn monitor_name_spec(rules: Seq<char>) -> Seq<char> {
    if starts_with(rules, "monitor:"@) {
        let mp = trim(after_prefix(rules, "monitor:"@));
        let i = first_index(mp, ',');
        let name = if 0 <= i < mp.len() {
            trim(mp.subrange(0, i))
        } else {
            trim(mp)
        };
        strip_char(strip_char(name, '"'), ':')
    } else {
        trim(split_on(rules, ',')[0])
    }
}

/// The rule that one line of Hyprland config gives:
/// `workspace = <id>, monitor:<name>[,default:true][,persistent:true]`.
pub open spec fn hypr_rule_line(line: Seq<char>) -> Option<(usize, Seq<char>, bool, bool)> {
    let t = trim(line);
    if !starts_with(t, "workspace"@) {
        None
    } else {
        let r1 = trim_start(after_prefix(t, "workspace"@));
        if !starts_with(r1, "="@) {
            None
        } else {
            let r2 = trim_start(r1.drop_first());
            let i = first_index(r2, ',');
            if !(0 <= i < r2.len()) {
                None
            } else {
                match parse_usize_spec(trim(r2.subrange(0, i))) {
                    None => None,
                    Some(id) => {
                        let rules = trim(r2.subrange(i + 1, r2.len() as int));
                        Some(
                            (
                                id,
                                monitor_name_spec(rules),
                                contains_seq(rules, "default:true"@),
                                contains_seq(rules, "persistent:true"@),
                            ),
                        )
                    },
                }
            }
        }
    }
}

/// The rule that one line of Sway config gives: `workspace <id> output <name>`.
pub open spec fn sway_rule_line(line: Seq<char>) -> Option<(usize, Seq<char>, bool, bool)> {
    let t = trim(line);
    if !starts_with(t, "workspace"@) {
        None
    } else {
        let r1 = trim_start(after_prefix(t, "workspace"@));
        let i = first_ws(r1);
        if !(0 <= i < r1.len()) {
            None
        } else {
            match parse_usize_spec(trim(r1.subrange(0, i))) {
                None => None,
                Some(id) => {
                    let rest = trim(r1.subrange(i + 1, r1.len() as int));
                    if !starts_with(rest, "output"@) {
                        None
                    } else {
                        Some((id, trim(after_prefix(rest, "output"@)), false, false))
                    }
                },
            }
        }
    }
}

pub open spec fn opt_seq<T>(o: Option<T>) -> Seq<T> {
    match o {
        Some(x) => seq![x],
        None => Seq::empty(),
    }
}

/// The rules of all lines, in order.
pub open spec fn hypr_rules_in(lines: Seq<Seq<char>>) -> Seq<(usize, Seq<char>, bool, bool)>
    decreases lines.len(),
{
    if lines.len() == 0 {
        Seq::empty()
    } else {
        hypr_rules_in(lines.drop_last()) + opt_seq(hypr_rule_line(lines.last()))
    }
}

pub open spec fn sway_rules_in(lines: Seq<Seq<char>>) -> Seq<(usize, Seq<char>, bool, bool)>
    decreases lines.len(),
{
    if lines.len() == 0 {
        Seq::empty()
    } else {
        sway_rules_in(lines.drop_last()) + opt_seq(sway_rule_line(lines.last()))
    }
}

pub open spec fn workspace_rules_spec(compositor: Compositor, content: Seq<char>) -> Seq<
    (usize, Seq<char>, bool, bool),
> {
    match compositor {
        Compositor::Hyprland => hypr_rules_in(lines_of(content)),
        Compositor::Sway => sway_rules_in(lines_of(content)),
        _ => Seq::empty(),
    }
}

/// `monitor_name_spec` of `s[from..to]`.
fn monitor_name_at(s: &[char], from: usize, to: usize) -> (r: Vec<char>)
    requires
        from <= to <= s@.len(),
    ensures
        r@ == monitor_name_spec(s@.subrange(from as int, to as int)),
{
    proof {
        reveal_strlit("monitor:");
    }
    let ghost rules = s@.subrange(from as int, to as int);
    if matches_at(s, from, to, "monitor:") {
        assert(after_prefix(rules, "monitor:"@) =~= s@.subrange(from + 8, to as int));
        let (ma, mb) = trim_bounds(s, from + 8, to);
        let ghost mp = s@.subrange(ma as int, mb as int);
        let i = find_char(s, ma, mb, ',');
        let (na, nb) = if i < mb {
            assert(mp.subrange(0, i - ma) =~= s@.subrange(ma as int, i as int));
            trim_bounds(s, ma, i)
        } else {
            trim_bounds(s, ma, mb)
        };
        let (qa, qb) = strip_char_bounds(s, na, nb, '"');
        let (ca, cb) = strip_char_bounds(s, qa, qb, ':');
        copy_range(s, ca, cb)
    } else {
        let parts = crate::text::split_ranges(s, from, to, ',');
        let (pa, pb) = trim_bounds(s, parts[0].0, parts[0].1);
        copy_range(s, pa, pb)
    }
}

/// Parses the tail of a Hyprland workspace rule for its output name.
pub fn extract_monitor_name(rules: &str) -> (r: String)
    ensures
        r@ == monitor_name_spec(rules@),
{
    let c = chars_of(rules);
    assert(c@.subrange(0, c@.len() as int) =~= rules@);
    let v = monitor_name_at(c.as_slice(), 0, c.len());
    string_of(v.as_slice())
}

/// `hypr_rule_line` of the line `s[from..to]`.
fn hypr_rule_at(s: &[char], from: usize, to: usize) -> (r: Option<WorkspaceRule>)
    requires
        from <= to <= s@.len(),
    ensures
        match r {
            Some(w) => hypr_rule_line(s@.subrange(from as int, to as int)) == Some(w@),
            None => hypr_rule_line(s@.subrange(from as int, to as int)) == None::<
                (usize, Seq<char>, bool, bool),
            >,
        },
{
    proof {
        reveal_strlit("workspace");
        reveal_strlit("=");
    }
    let (ta, tb) = trim_bounds(s, from, to);
    let ghost t = s@.subrange(ta as int, tb as int);
    if !matches_at(s, ta, tb, "workspace") {
        return None;
    }
    assert(after_prefix(t, "workspace"@) =~= s@.subrange(ta + 9, tb as int));
    let a1 = skip_ws(s, ta + 9, tb);
    let ghost r1 = s@.subrange(a1 as int, tb as int);
    if !matches_at(s, a1, tb, "=") {
        return None;
    }
    assert(r1.drop_first() =~= s@.subrange(a1 + 1, tb as int));
    let a2 = skip_ws(s, a1 + 1, tb);
    let ghost r2 = s@.subrange(a2 as int, tb as int);
    let i = find_char(s, a2, tb, ',');
    if i == tb {
        return None;
    }
    let (ia, ib) = trim_bounds(s, a2, i);
    assert(r2.subrange(0, i - a2) =~= s@.subrange(a2 as int, i as int));
    let id = match parse_usize_at(s, ia, ib) {
        Some(v) => v,
        None => {
            return None;
        },
    };
    assert(r2.subrange(i - a2 + 1, r2.len() as int) =~= s@.subrange(i + 1, tb as int));
    let (ra, rb) = trim_bounds(s, i + 1, tb);
    let is_default = range_contains(s, ra, rb, "default:true");
    let is_persistent = range_contains(s, ra, rb, "persistent:true");
    let name = monitor_name_at(s, ra, rb);
    let monitor = string_of(name.as_slice());
    Some(WorkspaceRule { id, monitor, is_default, is_persistent })
}

/// `sway_rule_line` of the line `s[from..to]`.
fn sway_rule_at(s: &[char], from: usize, to: usize) -> (r: Option<WorkspaceRule>)
    requires
        from <= to <= s@.len(),
    ensures
        match r {
            Some(w) => sway_rule_line(s@.subrange(from as int, to as int)) == Some(w@),
            None => sway_rule_line(s@.subrange(from as int, to as int)) == None::<
                (usize, Seq<char>, bool, bool),
            >,
        },
{
    proof {
        reveal_strlit("workspace");
        reveal_strlit("output");
    }
    let (ta, tb) = trim_bounds(s, from, to);
    let ghost t = s@.subrange(ta as int, tb as int);
    if !matches_at(s, ta, tb, "workspace") {
        return None;
    }
    assert(after_prefix(t, "workspace"@) =~= s@.subrange(ta + 9, tb as int));
    let a1 = skip_ws(s, ta + 9, tb);
    let ghost r1 = s@.subrange(a1 as int, tb as int);
    let i = find_ws(s, a1, tb);
    if i == tb {
        return None;
    }
    let (ia, ib) = trim_bounds(s, a1, i);
    assert(r1.subrange(0, i - a1) =~= s@.subrange(a1 as int, i as int));
    let id = match parse_usize_at(s, ia, ib) {
        Some(v) => v,
        None => {
            return None;
        },
    };
    assert(r1.subrange(i - a1 + 1, r1.len() as int) =~= s@.subrange(i + 1, tb as int));
    let (ra, rb) = trim_bounds(s, i + 1, tb);
    let ghost rest = s@.subrange(ra as int, rb as int);
    if !matches_at(s, ra, rb, "output") {
        return None;
    }
    assert(after_prefix(rest, "output"@) =~= s@.subrange(ra + 6, rb as int));
    let (na, nb) = trim_bounds(s, ra + 6, rb);
    let name = copy_range(s, na, nb);
    let monitor = string_of(name.as_slice());
    Some(WorkspaceRule { id, monitor, is_default: false, is_persistent: false })
}

/// All Hyprland workspace rules of `content`, in file order.
pub fn parse_hyprland_workspaces(content: &str) -> (r: Vec<WorkspaceRule>)
    ensures
        rules_view(r@) == hypr_rules_in(lines_of(content@)),
{
    parse_rules(content, true)
}

/// All Sway workspace rules of `content`, in file order.
pub fn parse_sway_workspaces(content: &str) -> (r: Vec<WorkspaceRule>)
    ensures
        rules_view(r@) == sway_rules_in(lines_of(content@)),
{
    parse_rules(content, false)
}

fn parse_rules(content: &str, hyprland: bool) -> (r: Vec<WorkspaceRule>)
    ensures
        hyprland ==> rules_view(r@) == hypr_rules_in(lines_of(content@)),
        !hyprland ==> rules_view(r@) == sway_rules_in(lines_of(content@)),
{
    let c = chars_of(content);
    let s = c.as_slice();
    let lines = crate::text::split_ranges(s, 0, c.len(), '\n');
    let ghost ls = lines_of(content@);
    assert(c@.subrange(0, c@.len() as int) =~= content@);
    let mut out: Vec<WorkspaceRule> = Vec::new();
    let mut i: usize = 0;
    while i < lines.len()
        invariant
            s@ == content@,
            ls == lines_of(content@),
            i <= lines@.len(),
            lines@.len() == ls.len(),
            forall|m: int|
                0 <= m < lines@.len() ==> 0 <= (#[trigger] lines@[m]).0 <= lines@[m].1 <= s@.len()
                    && s@.subrange(lines@[m].0 as int, lines@[m].1 as int) == ls[m],
            hyprland ==> rules_view(out@) == hypr_rules_in(ls.subrange(0, i as int)),
            !hyprland ==> rules_view(out@) == sway_rules_in(ls.subrange(0, i as int)),
        decreases lines@.len() - i,
    {
        let (a, b) = lines[i];
        let rule = if hyprland {
            hypr_rule_at(s, a, b)
        } else {
            sway_rule_at(s, a, b)
        };
        let ghost before = out@;
        assert(ls.subrange(0, i + 1).drop_last() =~= ls.subrange(0, i as int));
        assert(ls.subrange(0, i + 1).last() == ls[i as int]);
        match rule {
            Some(w) => {
                out.push(w);
                assert(rules_view(out@) =~= rules_view(before) + seq![w@]);
            },
            None => {},
        }
        i = i + 1;
    }
    assert(ls.subrange(0, i as int) =~= ls);
    out
}

/// The workspace rules that config text of the given dialect holds; none for
/// dialects without them.
pub fn parse_workspace_config(compositor: Compositor, content: &str) -> (r: Vec<WorkspaceRule>)
    ensures
        rules_view(r@) == workspace_rules_spec(compositor, content@),
{
    match compositor {
        Compositor::Hyprland => parse_hyprland_workspaces(content),
        Compositor::Sway => parse_sway_workspaces(content),
        _ => {
            let r: Vec<WorkspaceRule> = Vec::new();
            assert(rules_view(r@) =~= Seq::empty());
            r
        },
    }
}

} // verus!
