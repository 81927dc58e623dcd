//! First-time setup: where the dedicated output config goes, and what an
//! extraction plan amounts to.
use vstd::prelude::*;

use crate::compositor::Compositor;
use crate::extract::{
    any_flag, directive_flags, extracted_text, hypr_is_directive, file_directives, file_without_directives, flags_of,
    join_path, join_path_spec, modified_spec, pairs_view, parent_dir, parent_spec, picked_text,
    plan_spec, source_exists_spec, source_line_spec, source_targets_spec, str_eq,
    supports_extraction, file_directives as directives_of, ExtractionPlan,
};
use crate::round_trip::{concat_lines, lemma_lines_of_concat, no_newlines};
use crate::config::opt_str_view;
use crate::text::{copy_range, string_of};
use crate::utils::{expand_strict_spec, expand_tilde, UtilsError};
use crate::text::{chars_of, lines_of, split_ranges, starts_with, trim, trim_bounds, trim_start};

verus! {

broadcast use vstd::string::group_string_axioms;

/// Workspaces a fresh setup offers.
pub const SETUP_WORKSPACE_COUNT: usize = 10;

pub open spec fn default_config_path_spec(c: Compositor) -> Seq<char> {
    match c {
        Compositor::Hyprland => "~/.config/hypr/monitors.conf"@,
        Compositor::Sway => "~/.config/sway/output.conf"@,
        Compositor::River => "~/.config/river/monitors.conf"@,
        Compositor::Unknown => Seq::empty(),
    }
}

/// The path offered when the user enters one by hand.
pub fn default_config_path(compositor: Compositor) -> (r: String)
    ensures
        r@ == default_config_path_spec(compositor),
{
    match compositor {
        Compositor::Hyprland => String::from_str("~/.config/hypr/monitors.conf"),
        Compositor::Sway => String::from_str("~/.config/sway/output.conf"),
        Compositor::River => String::from_str("~/.config/river/monitors.conf"),
        Compositor::Unknown => String::new(),
    }
}

pub open spec fn monitors_config_name_spec(c: Compositor) -> Seq<char> {
    match c {
        Compositor::Sway => "output.conf"@,
        _ => "monitors.conf"@,
    }
}

/// The conventional name of the dedicated output file.
pub fn get_monitors_config_name(compositor: Compositor) -> (r: &'static str)
    ensures
        r@ == monitors_config_name_spec(compositor),
{
    match compositor {
        Compositor::Hyprland => "monitors.conf",
        Compositor::Sway => "output.conf",
        Compositor::River => "monitors.conf",
        Compositor::Unknown => "monitors.conf",
    }
}

pub fn get_outputfile_name(compositor: Compositor) -> (r: String)
    ensures
        r@ == monitors_config_name_spec(compositor),
{
    String::from_str(get_monitors_config_name(compositor))
}

/// A plan as setup shows it.
pub struct ExtractionResult {
    pub plan: ExtractionPlan,
    pub output_path: String,
    pub source_files: Vec<String>,
    pub monitor_count: usize,
    pub already_consolidated: bool,
}

/// Lines that are neither blank nor comments.
pub open spec fn count_directive_lines(lines: Seq<Seq<char>>) -> nat
    decreases lines.len(),
{
    if lines.len() == 0 {
        0
    } else {
        count_directive_lines(lines.drop_last()) + if trim(lines.last()).len() > 0 && !starts_with(
            trim(lines.last()),
            "#"@,
        ) {
            1nat
        } else {
            0nat
        }
    }
}

/// The config is consolidated already when the main config sources the
/// dedicated file and that file is the only one holding directives.
pub open spec fn consolidated_spec(
    source_exists: bool,
    modified: Seq<(Seq<char>, Seq<char>)>,
    output_path: Seq<char>,
) -> bool {
    source_exists && modified.len() == 1 && modified[0].0 == output_path
}

/// What setup shows for a plan: the dedicated file's path beside the main
/// config, the files that hold directives, how many directives, and whether
/// nothing needs to move. `None` when the plan found no directive or the main
/// config has no directory.
pub fn extraction_result(plan: ExtractionPlan, compositor: Compositor) -> (r: Option<ExtractionResult>)
    ensures
        r is Some <==> (plan.output_content@.len() > 0 && parent_spec(plan.main_config@) is Some),
        r matches Some(res) ==> {
            &&& res.output_path@ == join_path_spec(
                parent_spec(plan.main_config@)->0,
                monitors_config_name_spec(compositor),
            )
            &&& res.source_files@.len() == plan.modified_files@.len()
            &&& forall|j: int|
                0 <= j < res.source_files@.len() ==> (#[trigger] res.source_files@[j])@
                    == plan.modified_files@[j].0@
            &&& res.monitor_count == count_directive_lines(lines_of(plan.output_content@))
            &&& res.already_consolidated == consolidated_spec(
                plan.source_exists,
                pairs_view(plan.modified_files@),
                res.output_path@,
            )
            &&& res.plan.view_tuple() == plan.view_tuple()
        },
{
    proof {
        reveal_strlit("#");
    }
    if !plan.has_monitors() {
        return None;
    }
    let dir = match parent_dir(plan.main_config.as_str()) {
        Some(d) => d,
        None => {
            return None;
        },
    };
    let name = get_outputfile_name(compositor);
    let output_path = join_path(dir.as_str(), name.as_str());
    let ghost mv = pairs_view(plan.modified_files@);
    let mut source_files: Vec<String> = Vec::new();
    let mut i: usize = 0;
    while i < plan.modified_files.len()
        invariant
            i <= plan.modified_files@.len(),
            mv == pairs_view(plan.modified_files@),
            source_files@.len() == i,
            forall|j: int|
                0 <= j < i ==> (#[trigger] source_files@[j])@ == plan.modified_files@[j].0@,
        decreases plan.modified_files@.len() - i,
    {
        source_files.push(String::from_str(plan.modified_files[i].0.as_str()));
        i = i + 1;
    }
    assert(mv.subrange(0, i as int) =~= mv);
    let cs = chars_of(plan.output_content.as_str());
    let s = cs.as_slice();
    let lines = split_ranges(s, 0, cs.len(), '\n');
    let ghost ls = lines_of(plan.output_content@);
    assert(s@.subrange(0, s@.len() as int) =~= plan.output_content@);
    let mut count: usize = 0;
    let mut k: usize = 0;
    while k < lines.len()
        invariant
            k <= lines@.len(),
            lines@.len() == ls.len(),
            ls == lines_of(plan.output_content@),
            forall|m: int|
                0 <= m < lines@.len() ==> (#[trigger] lines@[m]).0 <= lines@[m].1 <= s@.len()
                    && s@.subrange(lines@[m].0 as int, lines@[m].1 as int) == ls[m],
            count == count_directive_lines(ls.subrange(0, k as int)),
            count <= k,
        decreases lines@.len() - k,
    {
        let (a, b) = lines[k];
        let (ta, tb) = trim_bounds(s, a, b);
        assert(ls.subrange(0, k + 1).drop_last() =~= ls.subrange(0, k as int));
        assert(ls.subrange(0, k + 1).last() == ls[k as int]);
        if ta < tb && s[ta] != '#' {
            count = count + 1;
        }
        proof {
            reveal_strlit("#");
            let t = trim(ls[k as int]);
            assert(t == s@.subrange(ta as int, tb as int));
            if ta < tb {
                assert(t[0] == s@[ta as int]);
                assert(t.subrange(0, 1) =~= seq![t[0]]);
                assert("#"@ =~= seq!['#']);
                if t[0] == '#' {
                    assert(t.subrange(0, 1) =~= "#"@);
                }
                if starts_with(t, "#"@) {
                    assert(t.subrange(0, 1)[0] == "#"@[0]);
                }
            }
        }
        k = k + 1;
    }
    assert(ls.subrange(0, k as int) =~= ls);
    let consolidated = plan.source_exists && source_files.len() == 1 && str_eq(
        source_files[0].as_str(),
        output_path.as_str(),
    );
    proof {
        if source_files@.len() == 1 {
            assert(mv[0].0 == plan.modified_files@[0].0@);
        }
    }
    Some(
        ExtractionResult {
            plan,
            output_path,
            source_files,
            monitor_count: count,
            already_consolidated: consolidated,
        },
    )
}

proof fn lemma_picked_none(lines: Seq<Seq<char>>, flags: Seq<bool>)
    requires
        flags.len() == lines.len(),
        !any_flag(flags),
    ensures
        picked_text(lines, flags) == Seq::<char>::empty(),
    decreases lines.len(),
{
    if lines.len() > 0 {
        let f = flags.subrange(0, lines.len() - 1);
        assert(!flags[lines.len() - 1]);
        assert(!any_flag(f)) by {
            if any_flag(f) {
                let k = choose|k: int| 0 <= k < f.len() && f[k];
                assert(flags[k]);
            }
        }
        lemma_picked_none(lines.drop_last(), f);
    }
}

proof fn lemma_flags_len(c: Compositor, lines: Seq<Seq<char>>, in_block: bool)
    ensures
        directive_flags(c, lines, in_block).len() == lines.len(),
    decreases lines.len(),
{
    if lines.len() > 0 {
        lemma_flags_len(c, lines.drop_first(), crate::extract::flag_step(c, lines[0], in_block).1);
    }
}

/// Running the planner on a config that is consolidated already: the main
/// config holds no output directive and sources a file named `filename`, and
/// the file at `output_path` holds the directives. The plan then adds no
/// source line, finds the dedicated file to be the only one holding
/// directives (so setup calls it consolidated and writes nothing), and its
/// content is exactly that file's directives.
pub proof fn lemma_consolidated_config_is_kept(
    c: Compositor,
    main_path: Seq<char>,
    main: Seq<char>,
    output_path: Seq<char>,
    dedicated: Seq<char>,
    filename: Seq<char>,
)
    requires
        supports_extraction(c),
        !any_flag(flags_of(c, main)),
        any_flag(flags_of(c, dedicated)),
        source_exists_spec(c, main, filename),
    ensures
        ({
            let plan = plan_spec(
                c,
                main_path,
                seq![(main_path, main), (output_path, dedicated)],
                filename,
            );
            &&& plan.2 is None
            &&& plan.4
            &&& plan.1 == seq![(output_path, file_without_directives(c, dedicated))]
            &&& consolidated_spec(plan.4, plan.1, output_path)
            &&& plan.0 == file_directives(c, dedicated)
        }),
{
    let files = seq![(main_path, main), (output_path, dedicated)];
    assert(files.drop_last() =~= seq![(main_path, main)]);
    assert(seq![(main_path, main)].drop_last() =~= Seq::<(Seq<char>, Seq<char>)>::empty());
    lemma_flags_len(c, lines_of(main), false);
    lemma_picked_none(lines_of(main), flags_of(c, main));
    let one = seq![(main_path, main)];
    assert(one.len() == 1);
    assert(one.last() == (main_path, main));
    assert(extracted_text(c, one.drop_last()) == Seq::<char>::empty());
    assert(file_directives(c, main) == Seq::<char>::empty());
    assert(extracted_text(c, one) == extracted_text(c, one.drop_last()) + file_directives(c, one.last().1));
    assert(extracted_text(c, one) =~= Seq::<char>::empty());
    assert(modified_spec(c, one.drop_last()) == Seq::<(Seq<char>, Seq<char>)>::empty());
    assert(!any_flag(flags_of(c, one.last().1)));
    assert(extracted_text(c, files) =~= file_directives(c, dedicated));
    assert(modified_spec(c, one) =~= Seq::<(Seq<char>, Seq<char>)>::empty());
    assert(modified_spec(c, files) =~= seq![(output_path, file_without_directives(c, dedicated))]);
}

proof fn lemma_hypr_flags(ls: Seq<Seq<char>>, b: bool)
    ensures
        directive_flags(Compositor::Hyprland, ls, b).len() == ls.len(),
        forall|i: int|
            0 <= i < ls.len() ==> directive_flags(Compositor::Hyprland, ls, b)[i] == hypr_is_directive(
                #[trigger] ls[i],
            ),
    decreases ls.len(),
{
    if ls.len() > 0 {
        let rest = ls.drop_first();
        lemma_hypr_flags(rest, false);
        let f = directive_flags(Compositor::Hyprland, ls, b);
        assert forall|i: int| 0 <= i < ls.len() implies f[i] == hypr_is_directive(#[trigger] ls[i]) by {
            if i > 0 {
                assert(rest[i - 1] == ls[i]);
            }
        }
    }
}

proof fn lemma_picked_all(ls: Seq<Seq<char>>, flags: Seq<bool>)
    requires
        flags.len() >= ls.len(),
        forall|i: int| 0 <= i < ls.len() ==> #[trigger] flags[i],
    ensures
        picked_text(ls, flags) == concat_lines(ls),
    decreases ls.len(),
{
    reveal_strlit("\n");
    if ls.len() > 0 {
        let f = flags.subrange(0, ls.len() - 1);
        assert forall|i: int| 0 <= i < ls.len() - 1 implies #[trigger] f[i] by {
            assert(flags[i]);
        }
        lemma_picked_all(ls.drop_last(), f);
        assert(flags[ls.len() - 1]);
        assert(picked_text(ls, flags) =~= concat_lines(ls));
    }
}

/// With Hyprland, a consolidated config keeps its dedicated file as it is:
/// when that file is exactly a run of `monitor` lines (each ending in a
/// newline), the content a new plan would write for it is that same text.
pub proof fn lemma_consolidated_file_unchanged(
    main_path: Seq<char>,
    main: Seq<char>,
    output_path: Seq<char>,
    lines: Seq<Seq<char>>,
    filename: Seq<char>,
)
    requires
        !any_flag(flags_of(Compositor::Hyprland, main)),
        source_exists_spec(Compositor::Hyprland, main, filename),
        lines.len() > 0,
        no_newlines(lines),
        forall|i: int| 0 <= i < lines.len() ==> hypr_is_directive(#[trigger] lines[i]),
    ensures
        ({
            let plan = plan_spec(
                Compositor::Hyprland,
                main_path,
                seq![(main_path, main), (output_path, concat_lines(lines))],
                filename,
            );
            &&& consolidated_spec(plan.4, plan.1, output_path)
            &&& plan.0 == concat_lines(lines)
        }),
{
    reveal_strlit("monitor");
    let d = concat_lines(lines);
    lemma_lines_of_concat(lines);
    let all = lines + seq![Seq::<char>::empty()];
    assert(lines_of(d) == all);
    lemma_hypr_flags(all, false);
    let flags = flags_of(Compositor::Hyprland, d);
    assert(flags == directive_flags(Compositor::Hyprland, all, false));
    assert forall|i: int| 0 <= i < lines.len() implies #[trigger] flags[i] by {
        assert(all[i] == lines[i]);
    }
    assert(flags[0]);
    assert(any_flag(flags));
    let e = Seq::<char>::empty();
    assert(all[lines.len() as int] == e);
    assert(trim_start(e) == e);
    assert(!hypr_is_directive(e));
    assert(!flags[lines.len() as int]);
    assert(all.drop_last() =~= lines);
    assert(flags.subrange(0, all.len() - 1).len() == lines.len());
    lemma_picked_all(lines, flags.subrange(0, all.len() - 1));
    assert(picked_text(all, flags) == picked_text(lines, flags.subrange(0, all.len() - 1)));
    lemma_consolidated_config_is_kept(Compositor::Hyprland, main_path, main, output_path, d, filename);
}

/// First extraction from a main config that sources no file: the plan moves
/// exactly the main config's directive lines, in order, into the dedicated
/// file, rewrites the main config without them, and adds the source line
/// for the dedicated file beside it.
pub proof fn lemma_first_extraction(
    c: Compositor,
    main_path: Seq<char>,
    main: Seq<char>,
    filename: Seq<char>,
)
    requires
        supports_extraction(c),
        source_targets_spec(c, main).len() == 0,
        any_flag(flags_of(c, main)),
    ensures
        ({
            let plan = plan_spec(c, main_path, seq![(main_path, main)], filename);
            &&& plan.0 == directives_of(c, main)
            &&& plan.1 == seq![(main_path, file_without_directives(c, main))]
            &&& plan.2 == Some(source_line_spec(c, main_path, filename))
            &&& !plan.4
        }),
{
    let one = seq![(main_path, main)];
    assert(one.drop_last() =~= Seq::<(Seq<char>, Seq<char>)>::empty());
    assert(one.last() == (main_path, main));
    assert(one.len() == 1);
    assert(extracted_text(c, one.drop_last()) == Seq::<char>::empty());
    assert(extracted_text(c, one) == extracted_text(c, one.drop_last()) + directives_of(c, one.last().1));
    assert(extracted_text(c, one) =~= directives_of(c, main));
    assert(modified_spec(c, one.drop_last()) == Seq::<(Seq<char>, Seq<char>)>::empty());
    assert(any_flag(flags_of(c, one.last().1)));
    assert(modified_spec(c, one) =~= seq![(main_path, file_without_directives(c, main))]);
    assert(!source_exists_spec(c, main, filename));
}

/// What Enter does with a path typed by hand.
#[derive(Debug, Clone, PartialEq)]
pub enum ManualStep {
    /// Nothing but blanks was typed.
    EmptyPath,
    /// First Enter: ask the user to confirm that the file may be overwritten.
    AskConfirm,
    /// The path cannot be expanded.
    BadPath(UtilsError),
    /// Confirmed: this expanded path must name an existing file.
    Check(String),
}

/// Enter in manual setup, on the typed `input`, after a warning was shown
/// or not, with `home` the home directory if known.
pub fn manual_enter(input: &str, warned: bool, home: Option<&str>) -> (r: ManualStep)
    ensures
        trim(input@).len() == 0 ==> r == ManualStep::EmptyPath,
        trim(input@).len() > 0 && !warned ==> r == ManualStep::AskConfirm,
        trim(input@).len() > 0 && warned ==> match expand_strict_spec(trim(input@), opt_str_view(home)) {
            Ok(p) => r matches ManualStep::Check(s) && s@ == p,
            Err(e) => r == ManualStep::BadPath(e),
        },
{
    let cs = chars_of(input);
    let sl = cs.as_slice();
    assert(sl@.subrange(0, sl@.len() as int) =~= input@);
    let (a, b) = trim_bounds(sl, 0, cs.len());
    if a == b {
        return ManualStep::EmptyPath;
    }
    if !warned {
        return ManualStep::AskConfirm;
    }
    let t = copy_range(sl, a, b);
    let path = string_of(t.as_slice());
    match expand_tilde(path.as_str(), home) {
        Ok(p) => ManualStep::Check(p),
        Err(e) => ManualStep::BadPath(e),
    }
}

proof fn lemma_files_append(c: Compositor, a: Seq<(Seq<char>, Seq<char>)>, b: Seq<(Seq<char>, Seq<char>)>)
    ensures
        extracted_text(c, a + b) == extracted_text(c, a) + extracted_text(c, b),
        modified_spec(c, a + b) == modified_spec(c, a) + modified_spec(c, b),
    decreases b.len(),
{
    if b.len() == 0 {
        assert(a + b =~= a);
        assert(extracted_text(c, a) + extracted_text(c, b) =~= extracted_text(c, a));
        assert(modified_spec(c, a) + modified_spec(c, b) =~= modified_spec(c, a));
    } else {
        assert((a + b).drop_last() =~= a + b.drop_last());
        assert((a + b).last() == b.last());
        lemma_files_append(c, a, b.drop_last());
        assert(extracted_text(c, a + b) =~= extracted_text(c, a) + extracted_text(c, b));
        assert(modified_spec(c, a + b) =~= modified_spec(c, a) + modified_spec(c, b));
    }
}

/// Files without a directive contribute nothing to a plan.
proof fn lemma_quiet_files(c: Compositor, fs: Seq<(Seq<char>, Seq<char>)>)
    requires
        forall|i: int| 0 <= i < fs.len() ==> !any_flag(flags_of(c, (#[trigger] fs[i]).1)),
    ensures
        extracted_text(c, fs) == Seq::<char>::empty(),
        modified_spec(c, fs) == Seq::<(Seq<char>, Seq<char>)>::empty(),
    decreases fs.len(),
{
    if fs.len() > 0 {
        let rest = fs.drop_last();
        assert forall|i: int| 0 <= i < rest.len() implies !any_flag(flags_of(c, (#[trigger] rest[i]).1)) by {
            assert(rest[i] == fs[i]);
        }
        lemma_quiet_files(c, rest);
        let f = fs.last();
        assert(!any_flag(flags_of(c, fs[fs.len() - 1].1)));
        lemma_flags_len(c, lines_of(f.1), false);
        lemma_picked_none(lines_of(f.1), flags_of(c, f.1));
        assert(extracted_text(c, fs) =~= Seq::<char>::empty());
        assert(modified_spec(c, fs) =~= Seq::<(Seq<char>, Seq<char>)>::empty());
    }
}

/// The consolidated case with any number of sourced files: the main config
/// holds no directive and sources a file named `filename`; of the sourced
/// files only the one at `output_path` holds directives. A new plan adds no
/// source line, rewrites only that file (so setup calls the config
/// consolidated and writes nothing), and would write exactly its directives.
pub proof fn lemma_consolidated_with_sources(
    c: Compositor,
    main_path: Seq<char>,
    main: Seq<char>,
    sourced: Seq<(Seq<char>, Seq<char>)>,
    d: int,
    output_path: Seq<char>,
    filename: Seq<char>,
)
    requires
        supports_extraction(c),
        0 <= d < sourced.len(),
        sourced[d].0 == output_path,
        any_flag(flags_of(c, sourced[d].1)),
        forall|i: int| 0 <= i < sourced.len() && i != d ==> !any_flag(flags_of(c, (#[trigger] sourced[i]).1)),
        !any_flag(flags_of(c, main)),
        source_exists_spec(c, main, filename),
    ensures
        ({
            let plan = plan_spec(c, main_path, seq![(main_path, main)] + sourced, filename);
            &&& plan.2 is None
            &&& plan.4
            &&& plan.1 == seq![(output_path, file_without_directives(c, sourced[d].1))]
            &&& consolidated_spec(plan.4, plan.1, output_path)
            &&& plan.0 == file_directives(c, sourced[d].1)
        }),
{
    let files = seq![(main_path, main)] + sourced;
    let a = seq![(main_path, main)] + sourced.subrange(0, d);
    let mid = seq![sourced[d]];
    let b = sourced.subrange(d + 1, sourced.len() as int);
    assert(files =~= a + mid + b);
    assert forall|i: int| 0 <= i < a.len() implies !any_flag(flags_of(c, (#[trigger] a[i]).1)) by {
        if i > 0 {
            assert(a[i] == sourced[i - 1]);
        }
    }
    assert forall|i: int| 0 <= i < b.len() implies !any_flag(flags_of(c, (#[trigger] b[i]).1)) by {
        assert(b[i] == sourced[d + 1 + i]);
    }
    lemma_quiet_files(c, a);
    lemma_quiet_files(c, b);
    lemma_files_append(c, a + mid, b);
    lemma_files_append(c, a, mid);
    assert(mid.drop_last() =~= Seq::<(Seq<char>, Seq<char>)>::empty());
    assert(mid.last() == sourced[d]);
    assert(extracted_text(c, mid.drop_last()) == Seq::<char>::empty());
    assert(modified_spec(c, mid.drop_last()) == Seq::<(Seq<char>, Seq<char>)>::empty());
    assert(extracted_text(c, mid) =~= file_directives(c, sourced[d].1));
    assert(modified_spec(c, mid) =~= seq![(output_path, file_without_directives(c, sourced[d].1))]);
    assert(extracted_text(c, files) =~= file_directives(c, sourced[d].1));
    assert(modified_spec(c, files) =~= seq![(output_path, file_without_directives(c, sourced[d].1))]);
    assert(files[0].1 == main);
}

} // verus!
