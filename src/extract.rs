//! Moving the output directives of a compositor's main config (and the files
//! it sources) into one dedicated file that the engine owns.
use vstd::prelude::*;

use crate::compositor::{label_of, Compositor};
use crate::text::{
    after_prefix, chars_of, copy_range, find_char, has_char, is_ws, is_ws_char, join_lines,
    last_index, lines_of, matches_at, push_chars, push_str, rfind_char, skip_ws, split_ranges,
    starts_with, string_of, trim, trim_bounds, trim_start,
};
use crate::workspace_config::opt_seq;

verus! {

broadcast use vstd::string::group_string_axioms;

/// What setup will write: the dedicated file's content, the files to rewrite
/// without their output directives, and the line that makes the main config
/// read the dedicated file (none when it already does).
#[derive(Debug)]
pub struct ExtractionPlan {
    pub output_content: String,
    pub modified_files: Vec<(String, String)>,
    pub source_line: Option<String>,
    pub main_config: String,
    pub source_exists: bool,
}

/// A Hyprland `monitor = ...` line.
pub open spec fn hypr_is_directive(line: Seq<char>) -> bool {
    let t = trim(line);
    starts_with(t, "monitor"@) && starts_with(trim_start(after_prefix(t, "monitor"@)), "="@)
}

/// A Sway line inside an `output` directive, and whether a braced block stays
/// open after it.
pub open spec fn sway_flag_step(line: Seq<char>, in_block: bool) -> (bool, bool) {
    let t = trim(line);
    if in_block {
        (true, !has_char(t, '}'))
    } else if starts_with(t, "output"@) && (t.len() == 6 || is_ws(t[6])) {
        (true, has_char(t, '{') && !has_char(t, '}'))
    } else {
        (false, false)
    }
}

pub open spec fn flag_step(c: Compositor, line: Seq<char>, in_block: bool) -> (bool, bool) {
    if c == Compositor::Hyprland {
        (hypr_is_directive(line), false)
    } else {
        sway_flag_step(line, in_block)
    }
}

/// For each line, whether it belongs to an output directive.
pub open spec fn directive_flags(c: Compositor, lines: Seq<Seq<char>>, in_block: bool) -> Seq<bool>
    decreases lines.len(),
{
    if lines.len() == 0 {
        Seq::empty()
    } else {
        let st = flag_step(c, lines[0], in_block);
        seq![st.0] + directive_flags(c, lines.drop_first(), st.1)
    }
}

pub open spec fn flags_of(c: Compositor, content: Seq<char>) -> Seq<bool> {
    directive_flags(c, lines_of(content), false)
}

/// The flagged lines, each followed by a newline.
pub open spec fn picked_text(lines: Seq<Seq<char>>, flags: Seq<bool>) -> Seq<char>
    decreases lines.len(),
{
    if lines.len() == 0 {
        Seq::empty()
    } else {
        picked_text(lines.drop_last(), flags.subrange(0, lines.len() - 1)) + if flags[lines.len()
            - 1] {
            lines.last() + "\n"@
        } else {
            Seq::empty()
        }
    }
}

/// The lines not flagged, in order.
pub open spec fn kept_lines(lines: Seq<Seq<char>>, flags: Seq<bool>) -> Seq<Seq<char>>
    decreases lines.len(),
{
    if lines.len() == 0 {
        Seq::empty()
    } else {
        kept_lines(lines.drop_last(), flags.subrange(0, lines.len() - 1)) + if flags[lines.len()
            - 1] {
            Seq::empty()
        } else {
            seq![lines.last()]
        }
    }
}

pub open spec fn any_flag(flags: Seq<bool>) -> bool {
    exists|k: int| 0 <= k < flags.len() && flags[k]
}

/// The directive lines of one file.
pub open spec fn file_directives(c: Compositor, content: Seq<char>) -> Seq<char> {
    picked_text(lines_of(content), flags_of(c, content))
}

/// One file without its directive lines.
pub open spec fn file_without_directives(c: Compositor, content: Seq<char>) -> Seq<char> {
    join_lines(kept_lines(lines_of(content), flags_of(c, content)))
}

/// The directive lines of all files, in order.
pub open spec fn extracted_text(c: Compositor, files: Seq<(Seq<char>, Seq<char>)>) -> Seq<char>
    decreases files.len(),
{
    if files.len() == 0 {
        Seq::empty()
    } else {
        extracted_text(c, files.drop_last()) + file_directives(c, files.last().1)
    }
}

/// Each file that holds a directive, with its content once they are removed.
pub open spec fn modified_spec(c: Compositor, files: Seq<(Seq<char>, Seq<char>)>) -> Seq<
    (Seq<char>, Seq<char>),
>
    decreases files.len(),
{
    if files.len() == 0 {
        Seq::empty()
    } else {
        modified_spec(c, files.drop_last()) + if any_flag(flags_of(c, files.last().1)) {
            seq![(files.last().0, file_without_directives(c, files.last().1))]
        } else {
            Seq::empty()
        }
    }
}

/// The file named by a `source = <path>` (Hyprland) or `include <path>` (Sway) line.
pub open spec fn source_target(c: Compositor, line: Seq<char>) -> Option<Seq<char>> {
    let t = trim(line);
    if c == Compositor::Hyprland {
        if starts_with(t, "source"@) && starts_with(trim_start(after_prefix(t, "source"@)), "="@) {
            Some(trim(trim_start(after_prefix(t, "source"@)).drop_first()))
        } else {
            None
        }
    } else if starts_with(t, "include"@) && t.len() > 7 && is_ws(t[7]) {
        Some(trim(after_prefix(t, "include"@)))
    } else {
        None
    }
}

pub open spec fn source_targets_in(c: Compositor, lines: Seq<Seq<char>>) -> Seq<Seq<char>>
    decreases lines.len(),
{
    if lines.len() == 0 {
        Seq::empty()
    } else {
        source_targets_in(c, lines.drop_last()) + opt_seq(source_target(c, lines.last()))
    }
}

pub open spec fn source_targets_spec(c: Compositor, content: Seq<char>) -> Seq<Seq<char>> {
    source_targets_in(c, lines_of(content))
}

/// The last path component of a trimmed path.
pub open spec fn filename_spec(p: Seq<char>) -> Seq<char> {
    let t = trim(p);
    let i = last_index(t, '/');
    if 0 <= i < t.len() {
        t.subrange(i + 1, t.len() as int)
    } else {
        t
    }
}

/// The directory part of a path (`Path::parent`): `None` for an empty path.
pub open spec fn parent_spec(p: Seq<char>) -> Option<Seq<char>> {
    if p.len() == 0 {
        None
    } else {
        let i = last_index(p, '/');
        if i < 0 {
            Some(Seq::empty())
        } else if i == 0 {
            Some("/"@)
        } else {
            Some(p.subrange(0, i))
        }
    }
}

pub open spec fn join_path_spec(dir: Seq<char>, name: Seq<char>) -> Seq<char> {
    if dir.len() == 0 {
        name
    } else if dir.last() == '/' {
        dir + name
    } else {
        dir + "/"@ + name
    }
}

/// Whether the main config already sources a file of that name.
pub open spec fn source_exists_spec(c: Compositor, main: Seq<char>, filename: Seq<char>) -> bool {
    exists|k: int|
        0 <= k < source_targets_spec(c, main).len() && filename_spec(
            #[trigger] source_targets_spec(c, main)[k],
        ) == filename
}

pub open spec fn source_prefix(c: Compositor) -> Seq<char> {
    if c == Compositor::Hyprland {
        "source = "@
    } else {
        "include "@
    }
}

/// The line that makes the main config read the dedicated file, which sits
/// beside it.
pub open spec fn source_line_spec(c: Compositor, main_path: Seq<char>, filename: Seq<char>) -> Seq<
    char,
> {
    let dir = match parent_spec(main_path) {
        Some(d) => d,
        None => Seq::empty(),
    };
    source_prefix(c) + join_path_spec(dir, filename)
}

pub open spec fn supports_extraction(c: Compositor) -> bool {
    c == Compositor::Hyprland || c == Compositor::Sway
}

/// The plan as values: dedicated content, rewritten files, source line, main
/// config path, and whether the source line exists already.
pub open spec fn plan_spec(
    c: Compositor,
    main_path: Seq<char>,
    files: Seq<(Seq<char>, Seq<char>)>,
    filename: Seq<char>,
) -> (Seq<char>, Seq<(Seq<char>, Seq<char>)>, Option<Seq<char>>, Seq<char>, bool) {
    let exists = source_exists_spec(c, files[0].1, filename);
    (
        extracted_text(c, files),
        modified_spec(c, files),
        if exists {
            None
        } else {
            Some(source_line_spec(c, main_path, filename))
        },
        main_path,
        exists,
    )
}

pub open spec fn pairs_view(v: Seq<(String, String)>) -> Seq<(Seq<char>, Seq<char>)> {
    v.map_values(|p: (String, String)| (p.0@, p.1@))
}

pub open spec fn opt_view(o: Option<String>) -> Option<Seq<char>> {
    match o {
        Some(s) => Some(s@),
        None => None,
    }
}

impl ExtractionPlan {
    pub open spec fn view_tuple(&self) -> (
        Seq<char>,
        Seq<(Seq<char>, Seq<char>)>,
        Option<Seq<char>>,
        Seq<char>,
        bool,
    ) {
        (
            self.output_content@,
            pairs_view(self.modified_files@),
            opt_view(self.source_line),
            self.main_config@,
            self.source_exists,
        )
    }

    /// Whether any output directive was found.
    pub fn has_monitors(&self) -> (r: bool)
        ensures
            r == (self.output_content@.len() > 0),
    {
        self.output_content.as_str().unicode_len() != 0
    }
}

impl ExtractionPlan {
    /// The name of the dedicated file: the last component of the path in the
    /// source line, or `monitors.conf` without one.
    pub fn extract_output_filename(&self) -> (r: String)
        ensures
            r@ == output_filename_spec(opt_view(self.source_line)),
    {
        proof {
            reveal_strlit("source = ");
            reveal_strlit("include ");
        }
        if let Some(line) = &self.source_line {
            let cs = chars_of(line.as_str());
            let s = cs.as_slice();
            if matches_at(s, 0, cs.len(), "source = ") {
                assert(s@.subrange(0, s@.len() as int) =~= line@);
                let rest = copy_range(s, 9, cs.len());
                return extract_filename(string_of(rest.as_slice()).as_str());
            }
            if matches_at(s, 0, cs.len(), "include ") {
                assert(s@.subrange(0, s@.len() as int) =~= line@);
                let rest = copy_range(s, 8, cs.len());
                return extract_filename(string_of(rest.as_slice()).as_str());
            }
            assert(s@.subrange(0, s@.len() as int) =~= line@);
        }
        String::from_str("monitors.conf")
    }

    /// The files that carrying out the plan writes, in order, as (path,
    /// content): the dedicated file beside the main config, then each file
    /// without its directives, the main config with the source line appended.
    /// `main_content` is the main config's current text, used when the main
    /// config itself held no directive.
    pub fn planned_writes(&self, main_content: &str) -> (r: Result<Vec<(String, String)>, String>)
        ensures
            r is Err <==> (self.output_content@.len() == 0 || parent_spec(self.main_config@) is None),
            r matches Err(e) ==> e@ == if self.output_content@.len() == 0 {
                "No monitor configuration found to extract"@
            } else {
                "Cannot determine config directory"@
            },
            r matches Ok(w) ==> pairs_view(w@) == writes_spec(
                self.view_tuple(),
                main_content@,
                output_filename_spec(opt_view(self.source_line)),
            ),
    {
        if self.output_content.as_str().unicode_len() == 0 {
            return Err(String::from_str("No monitor configuration found to extract"));
        }
        let dir = match parent_dir(self.main_config.as_str()) {
            Some(d) => d,
            None => {
                return Err(String::from_str("Cannot determine config directory"));
            },
        };
        let name = self.extract_output_filename();
        let out_path = join_path(dir.as_str(), name.as_str());
        let mut writes: Vec<(String, String)> = Vec::new();
        writes.push((out_path, String::from_str(self.output_content.as_str())));
        let ghost mv = pairs_view(self.modified_files@);
        let ghost line = opt_view(self.source_line);
        let mut main_written = false;
        let mut i: usize = 0;
        while i < self.modified_files.len()
            invariant
                i <= self.modified_files@.len(),
                mv == pairs_view(self.modified_files@),
                line == opt_view(self.source_line),
                pairs_view(writes@) == seq![(join_path_spec(parent_spec(self.main_config@)->0, output_filename_spec(line)), self.output_content@)]
                    + rewrites_spec(mv.subrange(0, i as int), self.main_config@, line),
                main_written == (exists|k: int| 0 <= k < i && (#[trigger] mv[k]).0 == self.main_config@),
            decreases self.modified_files@.len() - i,
        {
            let (path, content) = &self.modified_files[i];
            let is_main = str_eq(path.as_str(), self.main_config.as_str());
            let new_content = if is_main {
                main_written = true;
                with_source_line(content.as_str(), &self.source_line)
            } else {
                String::from_str(content.as_str())
            };
            let ghost before = writes@;
            let ghost nc = new_content@;
            writes.push((String::from_str(path.as_str()), new_content));
            proof {
                assert(mv[i as int] == (path@, content@));
                assert(pairs_view(writes@) =~= pairs_view(before).push((path@, nc)));
                assert(mv.subrange(0, i + 1).drop_last() =~= mv.subrange(0, i as int));
                assert(mv.subrange(0, i + 1).last() == mv[i as int]);
                assert(pairs_view(writes@) =~= seq![(join_path_spec(parent_spec(self.main_config@)->0, output_filename_spec(line)), self.output_content@)]
                    + rewrites_spec(mv.subrange(0, i + 1), self.main_config@, line));
            }
            i = i + 1;
        }
        assert(mv.subrange(0, i as int) =~= mv);
        if !main_written {
            if let Some(_) = &self.source_line {
                let c = with_source_line(main_content, &self.source_line);
                writes.push((String::from_str(self.main_config.as_str()), c));
            }
        }
        assert(pairs_view(writes@) =~= writes_spec(self.view_tuple(), main_content@, output_filename_spec(line)));
        Ok(writes)
    }
}

impl ExtractionPlan {
    /// Whether carrying out the plan appends the source line to a main config
    /// that it does not rewrite anyway, and so needs that file's current text.
    pub fn needs_main_content(&self) -> (r: bool)
        ensures
            r == (self.source_line is Some && !(exists|k: int| 0 <= k < self.modified_files@.len()
                && (#[trigger] pairs_view(self.modified_files@)[k]).0 == self.main_config@)),
    {
        if self.source_line.is_none() {
            return false;
        }
        let ghost mv = pairs_view(self.modified_files@);
        let mut i: usize = 0;
        while i < self.modified_files.len()
            invariant
                i <= self.modified_files@.len(),
                mv == pairs_view(self.modified_files@),
                forall|k: int| 0 <= k < i ==> (#[trigger] mv[k]).0 != self.main_config@,
            decreases self.modified_files@.len() - i,
        {
            assert(mv[i as int].0 == self.modified_files@[i as int].0@);
            if str_eq(self.modified_files[i].0.as_str(), self.main_config.as_str()) {
                return false;
            }
            i = i + 1;
        }
        true
    }
}

pub open spec fn output_filename_spec(line: Option<Seq<char>>) -> Seq<char> {
    match line {
        Some(l) => if starts_with(l, "source = "@) {
            filename_spec(l.subrange(9, l.len() as int))
        } else if starts_with(l, "include "@) {
            filename_spec(l.subrange(8, l.len() as int))
        } else {
            "monitors.conf"@
        },
        None => "monitors.conf"@,
    }
}

/// `content` ending in a newline, then a blank line, the source line and a newline.
pub open spec fn with_source_spec(content: Seq<char>, line: Option<Seq<char>>) -> Seq<char> {
    let c = if content.len() > 0 && content.last() == '\n' {
        content
    } else {
        content + "\n"@
    };
    match line {
        Some(l) => c + "\n"@ + l + "\n"@,
        None => c,
    }
}

/// The rewritten files, the main config among them with the source line.
pub open spec fn rewrites_spec(
    mv: Seq<(Seq<char>, Seq<char>)>,
    main: Seq<char>,
    line: Option<Seq<char>>,
) -> Seq<(Seq<char>, Seq<char>)>
    decreases mv.len(),
{
    if mv.len() == 0 {
        Seq::empty()
    } else {
        let p = mv.last();
        rewrites_spec(mv.drop_last(), main, line) + seq![
            (p.0, if p.0 == main {
                with_source_spec(p.1, line)
            } else {
                p.1
            }),
        ]
    }
}

pub open spec fn writes_spec(
    plan: (Seq<char>, Seq<(Seq<char>, Seq<char>)>, Option<Seq<char>>, Seq<char>, bool),
    main_content: Seq<char>,
    filename: Seq<char>,
) -> Seq<(Seq<char>, Seq<char>)> {
    let (out, mv, line, main, _) = plan;
    seq![(join_path_spec(parent_spec(main)->0, filename), out)] + rewrites_spec(mv, main, line)
        + if line is Some && !(exists|k: int| 0 <= k < mv.len() && (#[trigger] mv[k]).0 == main) {
        seq![(main, with_source_spec(main_content, line))]
    } else {
        Seq::empty()
    }
}

fn with_source_line(content: &str, line: &Option<String>) -> (r: String)
    ensures
        r@ == with_source_spec(content@, opt_view(*line)),
{
    proof {
        reveal_strlit("\n");
    }
    let mut out = chars_of(content);
    if out.len() == 0 || out[out.len() - 1] != '\n' {
        out.push('\n');
    }
    if let Some(l) = line {
        out.push('\n');
        let lc = chars_of(l.as_str());
        push_chars(&mut out, lc.as_slice());
        out.push('\n');
    }
    assert(out@ =~= with_source_spec(content@, opt_view(*line)));
    string_of(out.as_slice())
}

/// The flags of the lines `s[lines[k]]`, and the state after them.
fn flags_at(c: Compositor, s: &[char], lines: &Vec<(usize, usize)>, ls: Ghost<Seq<Seq<char>>>) -> (r: Vec<bool>)
    requires
        lines@.len() == ls@.len(),
        forall|m: int|
            0 <= m < lines@.len() ==> (#[trigger] lines@[m]).0 <= lines@[m].1 <= s@.len()
                && s@.subrange(lines@[m].0 as int, lines@[m].1 as int) == ls@[m],
    ensures
        r@ == directive_flags(c, ls@, false),
{
    proof {
        reveal_strlit("monitor");
        reveal_strlit("=");
        reveal_strlit("output");
    }
    let mut out: Vec<bool> = Vec::new();
    let mut in_block = false;
    let mut i: usize = 0;
    assert(ls@.subrange(0, ls@.len() as int) =~= ls@);
    while i < lines.len()
        invariant
            i <= lines@.len(),
            lines@.len() == ls@.len(),
            forall|m: int|
                0 <= m < lines@.len() ==> (#[trigger] lines@[m]).0 <= lines@[m].1 <= s@.len()
                    && s@.subrange(lines@[m].0 as int, lines@[m].1 as int) == ls@[m],
            directive_flags(c, ls@, false) == out@ + directive_flags(
                c,
                ls@.subrange(i as int, ls@.len() as int),
                in_block,
            ),
        decreases lines@.len() - i,
    {
        proof {
            reveal_strlit("monitor");
            reveal_strlit("=");
            reveal_strlit("output");
        }
        let (a, b) = lines[i];
        let ghost line = ls@[i as int];
        let ghost rest = ls@.subrange(i as int, ls@.len() as int);
        assert(rest[0] == line);
        let (ta, tb) = trim_bounds(s, a, b);
        let ghost t = s@.subrange(ta as int, tb as int);
        let (flag, next) = if c == Compositor::Hyprland {
            let mut f = false;
            if matches_at(s, ta, tb, "monitor") {
                assert(after_prefix(t, "monitor"@) =~= s@.subrange(ta + 7, tb as int));
                let k = skip_ws(s, ta + 7, tb);
                f = matches_at(s, k, tb, "=");
            }
            (f, false)
        } else if in_block {
            (true, find_char(s, ta, tb, '}') == tb)
        } else if matches_at(s, ta, tb, "output") && (tb - ta == 6 || is_ws_char(s[ta + 6])) {
            assert(tb - ta > 6 ==> t[6] == s@[ta + 6]);
            (true, find_char(s, ta, tb, '{') < tb && find_char(s, ta, tb, '}') == tb)
        } else {
            (false, false)
        };
        assert((flag, next) == flag_step(c, line, in_block));
        out.push(flag);
        in_block = next;
        assert(rest.drop_first() =~= ls@.subrange(i + 1, ls@.len() as int));
        assert(directive_flags(c, ls@, false) =~= out@ + directive_flags(
            c,
            ls@.subrange(i + 1, ls@.len() as int),
            in_block,
        ));
        i = i + 1;
    }
    assert(out@ =~= directive_flags(c, ls@, false));
    out
}

proof fn lemma_flags_len(c: Compositor, lines: Seq<Seq<char>>, in_block: bool)
    ensures
        directive_flags(c, lines, in_block).len() == lines.len(),
    decreases lines.len(),
{
    if lines.len() > 0 {
        lemma_flags_len(c, lines.drop_first(), flag_step(c, lines[0], in_block).1);
    }
}

/// The directive lines of one file, the file without them, and whether it
/// held any.
fn scan_file(c: Compositor, content: &str) -> (r: (Vec<char>, Vec<char>, bool))
    ensures
        r.0@ == file_directives(c, content@),
        r.1@ == file_without_directives(c, content@),
        r.2 == any_flag(flags_of(c, content@)),
{
    let cs = chars_of(content);
    let s = cs.as_slice();
    let lines = split_ranges(s, 0, cs.len(), '\n');
    let ghost ls = lines_of(content@);
    assert(s@.subrange(0, s@.len() as int) =~= content@);
    let flags = flags_at(c, s, &lines, Ghost(ls));
    proof {
        lemma_flags_len(c, ls, false);
    }
    let ghost fl = flags@;
    let mut picked: Vec<char> = Vec::new();
    let mut kept: Vec<char> = Vec::new();
    let mut nkept: usize = 0;
    let mut any = false;
    let mut i: usize = 0;
    while i < lines.len()
        invariant
            i <= lines@.len(),
            lines@.len() == ls.len(),
            flags@.len() == ls.len(),
            fl == flags@,
            fl == flags_of(c, content@),
            ls == lines_of(content@),
            forall|m: int|
                0 <= m < lines@.len() ==> (#[trigger] lines@[m]).0 <= lines@[m].1 <= s@.len()
                    && s@.subrange(lines@[m].0 as int, lines@[m].1 as int) == ls[m],
            picked@ == picked_text(ls.subrange(0, i as int), fl.subrange(0, i as int)),
            kept@ == join_lines(kept_lines(ls.subrange(0, i as int), fl.subrange(0, i as int))),
            nkept <= i,
            nkept == kept_lines(ls.subrange(0, i as int), fl.subrange(0, i as int)).len(),
            any == any_flag(fl.subrange(0, i as int)),
        decreases lines@.len() - i,
    {
        let (a, b) = lines[i];
        let ghost l1 = ls.subrange(0, i + 1);
        let ghost f1 = fl.subrange(0, i + 1);
        assert(l1.drop_last() =~= ls.subrange(0, i as int));
        assert(f1.subrange(0, i as int) =~= fl.subrange(0, i as int));
        assert(l1.last() == ls[i as int]);
        if flags[i] {
            push_chars(&mut picked, &s[a..b]);
            picked.push('\n');
            any = true;
            proof {
                reveal_strlit("\n");
                assert(picked@ =~= picked_text(l1, f1));
                assert(f1[i as int]);
            }
        } else {
            if nkept > 0 {
                kept.push('\n');
            }
            push_chars(&mut kept, &s[a..b]);
            nkept = nkept + 1;
            proof {
                reveal_strlit("\n");
                let k0 = kept_lines(ls.subrange(0, i as int), fl.subrange(0, i as int));
                let k1 = kept_lines(l1, f1);
                assert(k1 =~= k0.push(ls[i as int]));
                assert(k1.drop_last() =~= k0);
                assert(kept@ =~= join_lines(k1));
                assert(picked@ =~= picked_text(l1, f1));
                assert(any == any_flag(f1)) by {
                    if any_flag(f1) {
                        let k = choose|k: int| 0 <= k < f1.len() && f1[k];
                        assert(k < i);
                        assert(fl.subrange(0, i as int)[k]);
                    }
                }
            }
        }
        i = i + 1;
    }
    assert(ls.subrange(0, i as int) =~= ls);
    assert(fl.subrange(0, i as int) =~= fl);
    (picked, kept, any)
}

/// The targets of the `source` (Hyprland) or `include` (Sway) lines of the
/// main config, in order.
pub fn source_targets(c: Compositor, content: &str) -> (r: Vec<String>)
    ensures
        r@.map_values(|t: String| t@) == source_targets_spec(c, content@),
{
    proof {
        reveal_strlit("source");
        reveal_strlit("=");
        reveal_strlit("include");
    }
    let cs = chars_of(content);
    let s = cs.as_slice();
    let lines = split_ranges(s, 0, cs.len(), '\n');
    let ghost ls = lines_of(content@);
    assert(s@.subrange(0, s@.len() as int) =~= content@);
    let mut out: Vec<String> = Vec::new();
    let mut i: usize = 0;
    while i < lines.len()
        invariant
            i <= lines@.len(),
            lines@.len() == ls.len(),
            ls == lines_of(content@),
            forall|m: int|
                0 <= m < lines@.len() ==> (#[trigger] lines@[m]).0 <= lines@[m].1 <= s@.len()
                    && s@.subrange(lines@[m].0 as int, lines@[m].1 as int) == ls[m],
            out@.map_values(|t: String| t@) == source_targets_in(c, ls.subrange(0, i as int)),
        decreases lines@.len() - i,
    {
        proof {
            reveal_strlit("source");
            reveal_strlit("=");
            reveal_strlit("include");
        }
        let (a, b) = lines[i];
        let ghost line = ls[i as int];
        let (ta, tb) = trim_bounds(s, a, b);
        let ghost t = s@.subrange(ta as int, tb as int);
        let mut target: Option<(usize, usize)> = None;
        if c == Compositor::Hyprland {
            if matches_at(s, ta, tb, "source") {
                assert(after_prefix(t, "source"@) =~= s@.subrange(ta + 6, tb as int));
                let k = skip_ws(s, ta + 6, tb);
                if matches_at(s, k, tb, "=") {
                    assert(s@.subrange(k as int, tb as int).drop_first() =~= s@.subrange(
                        k + 1,
                        tb as int,
                    ));
                    target = Some(trim_bounds(s, k + 1, tb));
                }
            }
        } else if matches_at(s, ta, tb, "include") && tb - ta > 7 && is_ws_char(s[ta + 7]) {
            assert(t[7] == s@[ta + 7]);
            assert(after_prefix(t, "include"@) =~= s@.subrange(ta + 7, tb as int));
            target = Some(trim_bounds(s, ta + 7, tb));
        }
        let ghost before = out@;
        match target {
            Some((x, y)) => {
                let v = copy_range(s, x, y);
                out.push(string_of(v.as_slice()));
                assert(source_target(c, line) == Some(s@.subrange(x as int, y as int)));
            },
            None => {
                assert(source_target(c, line) is None);
            },
        }
        assert(ls.subrange(0, i + 1).drop_last() =~= ls.subrange(0, i as int));
        assert(ls.subrange(0, i + 1).last() == line);
        assert(out@.map_values(|t: String| t@) =~= source_targets_in(c, ls.subrange(0, i + 1)));
        i = i + 1;
    }
    assert(ls.subrange(0, i as int) =~= ls);
    out
}

/// The last component of a (trimmed) path.
pub fn extract_filename(path: &str) -> (r: String)
    ensures
        r@ == filename_spec(path@),
{
    let cs = chars_of(path);
    let s = cs.as_slice();
    assert(s@.subrange(0, s@.len() as int) =~= path@);
    let (a, b) = trim_bounds(s, 0, cs.len());
    let ghost t = s@.subrange(a as int, b as int);
    let v = match rfind_char(s, a, b, '/') {
        Some(i) => {
            assert(t.subrange(i - a + 1, t.len() as int) =~= s@.subrange(i + 1, b as int));
            copy_range(s, i + 1, b)
        },
        None => copy_range(s, a, b),
    };
    string_of(v.as_slice())
}

/// The directory part of a path; `None` for an empty path.
pub fn parent_dir(path: &str) -> (r: Option<String>)
    ensures
        opt_view(r) == parent_spec(path@),
{
    proof {
        reveal_strlit("/");
    }
    let cs = chars_of(path);
    let s = cs.as_slice();
    assert(s@.subrange(0, s@.len() as int) =~= path@);
    if cs.len() == 0 {
        return None;
    }
    match rfind_char(s, 0, cs.len(), '/') {
        None => Some(String::new()),
        Some(0) => Some(String::from_str("/")),
        Some(i) => {
            let v = copy_range(s, 0, i);
            Some(string_of(v.as_slice()))
        },
    }
}

/// `dir` joined with a file name.
pub fn join_path(dir: &str, name: &str) -> (r: String)
    ensures
        r@ == join_path_spec(dir@, name@),
{
    proof {
        reveal_strlit("/");
    }
    let d = chars_of(dir);
    let n = chars_of(name);
    let mut out: Vec<char> = Vec::new();
    push_chars(&mut out, d.as_slice());
    if d.len() > 0 && d[d.len() - 1] != '/' {
        out.push('/');
    }
    push_chars(&mut out, n.as_slice());
    assert(d@.len() > 0 ==> d@.last() == d@[d@.len() - 1]);
    assert(out@ =~= join_path_spec(dir@, name@));
    string_of(out.as_slice())
}

/// Resolves a path written in a config file: `~/` against `home` when it is
/// known, absolute paths as they are, others against `base_dir`.
pub fn resolve_path(base_dir: &str, path: &str, home: Option<&str>) -> (r: String)
    ensures
        r@ == ({
            let t = trim(path@);
            if starts_with(t, "~/"@) && home is Some {
                home->0@ + "/"@ + t.subrange(2, t.len() as int)
            } else if starts_with(t, "/"@) {
                t
            } else {
                join_path_spec(base_dir@, t)
            }
        }),
{
    proof {
        reveal_strlit("~/");
        reveal_strlit("/");
    }
    let cs = chars_of(path);
    let s = cs.as_slice();
    assert(s@.subrange(0, s@.len() as int) =~= path@);
    let (a, b) = trim_bounds(s, 0, cs.len());
    let ghost t = s@.subrange(a as int, b as int);
    let trimmed = copy_range(s, a, b);
    if matches_at(s, a, b, "~/") {
        if let Some(h) = home {
            let mut out = chars_of(h);
            out.push('/');
            push_chars(&mut out, &s[a + 2..b]);
            assert(t.subrange(2, t.len() as int) =~= s@.subrange(a + 2, b as int));
            assert(out@ =~= h@ + "/"@ + t.subrange(2, t.len() as int));
            return string_of(out.as_slice());
        }
    }
    let ts = string_of(trimmed.as_slice());
    if matches_at(s, a, b, "/") {
        ts
    } else {
        join_path(base_dir, ts.as_str())
    }
}

/// Builds the plan for a main config at `config_path` with content
/// `main_content`, and the files it sources (`(path, content)`, in order), to
/// move their output directives into `output_filename` beside the main config.
pub fn extract_monitors(
    config_path: &str,
    compositor: Compositor,
    output_filename: &str,
    main_content: &str,
    sourced: &[(String, String)],
) -> (r: Result<ExtractionPlan, String>)
    ensures
        r is Ok <==> supports_extraction(compositor),
        r matches Err(e) ==> e@ == "Config extraction not supported for "@ + label_of(compositor),
        r matches Ok(plan) ==> plan.view_tuple() == plan_spec(
            compositor,
            config_path@,
            seq![(config_path@, main_content@)] + pairs_view(sourced@),
            output_filename@,
        ),
{
    if !(compositor == Compositor::Hyprland || compositor == Compositor::Sway) {
        let mut msg: Vec<char> = Vec::new();
        push_str(&mut msg, "Config extraction not supported for ");
        push_str(&mut msg, compositor.label());
        return Err(string_of(msg.as_slice()));
    }
    let ghost files = seq![(config_path@, main_content@)] + pairs_view(sourced@);
    let mut output: Vec<char> = Vec::new();
    let mut modified: Vec<(String, String)> = Vec::new();
    assert(files.subrange(0, 0) =~= Seq::<(Seq<char>, Seq<char>)>::empty());
    assert(pairs_view(modified@) =~= Seq::<(Seq<char>, Seq<char>)>::empty());
    assert(files[0] == (config_path@, main_content@));
    add_file(compositor, config_path, main_content, &mut output, &mut modified, Ghost(files), Ghost(0));
    let mut i: usize = 0;
    while i < sourced.len()
        invariant
            i <= sourced@.len(),
            files == seq![(config_path@, main_content@)] + pairs_view(sourced@),
            output@ == extracted_text(compositor, files.subrange(0, i + 1)),
            pairs_view(modified@) == modified_spec(compositor, files.subrange(0, i + 1)),
        decreases sourced@.len() - i,
    {
        assert(files[i + 1] == (sourced@[i as int].0@, sourced@[i as int].1@));
        add_file(
            compositor,
            sourced[i].0.as_str(),
            sourced[i].1.as_str(),
            &mut output,
            &mut modified,
            Ghost(files),
            Ghost(i + 1),
        );
        i = i + 1;
    }
    assert(files.subrange(0, i + 1) =~= files);
    let targets = source_targets(compositor, main_content);
    let mut exists = false;
    let mut k: usize = 0;
    while k < targets.len()
        invariant
            k <= targets@.len(),
            targets@.map_values(|t: String| t@) == source_targets_spec(compositor, main_content@),
            exists == (exists|j: int|
                0 <= j < k && filename_spec(#[trigger] source_targets_spec(compositor, main_content@)[j])
                    == output_filename@),
        decreases targets@.len() - k,
    {
        let f = extract_filename(targets[k].as_str());
        assert(targets@.map_values(|t: String| t@)[k as int] == targets@[k as int]@);
        if f.as_str().unicode_len() == output_filename.unicode_len() && str_eq(f.as_str(), output_filename) {
            exists = true;
        }
        k = k + 1;
    }
    let source_line = if exists {
        None
    } else {
        let dir = match parent_dir(config_path) {
            Some(d) => d,
            None => String::new(),
        };
        let full = join_path(dir.as_str(), output_filename);
        let mut line: Vec<char> = Vec::new();
        if compositor == Compositor::Hyprland {
            push_str(&mut line, "source = ");
        } else {
            push_str(&mut line, "include ");
        }
        let fc = chars_of(full.as_str());
        push_chars(&mut line, fc.as_slice());
        Some(string_of(line.as_slice()))
    };
    assert(files[0].1 == main_content@);
    Ok(
        ExtractionPlan {
            output_content: string_of(output.as_slice()),
            modified_files: modified,
            source_line,
            main_config: String::from_str(config_path),
            source_exists: exists,
        },
    )
}

/// Adds file `at` of `files` (path and content given) to the plan built so far.
fn add_file(
    compositor: Compositor,
    path: &str,
    content: &str,
    output: &mut Vec<char>,
    modified: &mut Vec<(String, String)>,
    files: Ghost<Seq<(Seq<char>, Seq<char>)>>,
    at: Ghost<int>,
)
    requires
        0 <= at@ < files@.len(),
        files@[at@] == (path@, content@),
        old(output)@ == extracted_text(compositor, files@.subrange(0, at@)),
        pairs_view(old(modified)@) == modified_spec(compositor, files@.subrange(0, at@)),
    ensures
        final(output)@ == extracted_text(compositor, files@.subrange(0, at@ + 1)),
        pairs_view(final(modified)@) == modified_spec(compositor, files@.subrange(0, at@ + 1)),
{
    let (picked, kept, any) = scan_file(compositor, content);
    let ghost f1 = files@.subrange(0, at@ + 1);
    assert(f1.drop_last() =~= files@.subrange(0, at@));
    assert(f1.last() == files@[at@]);
    push_chars(output, picked.as_slice());
    if any {
        modified.push((String::from_str(path), string_of(kept.as_slice())));
    }
    assert(pairs_view(modified@) =~= modified_spec(compositor, f1));
}

/// Whether two strings hold the same characters.
pub fn str_eq(a: &str, b: &str) -> (r: bool)
    ensures
        r == (a@ == b@),
{
    let x = chars_of(a);
    let y = chars_of(b);
    assert(x@.subrange(0, x@.len() as int) =~= x@);
    crate::text::range_eq(x.as_slice(), 0, x.len(), y.as_slice())
}

} // verus!
