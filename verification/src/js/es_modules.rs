//! Rewriting ES module source so that a script engine without modules can
//! run it: imports become lookups in a module registry and exports become
//! fields of an `exports` object.  Which text a statement's parts are is
//! decided by regular expressions of the `regex` crate.
use vstd::prelude::*;
use vstd::string::StringExecFns;
use crate::strmap::StrMap;
use crate::jetcrab::module::str_views;
use crate::layout::vdom::opt_view;
use crate::text::{
    chars_of, find_exec, line_ranges, lines, pieces, split_char, split_ranges, starts_with, starts_with_exec,
    contains, string_of, string_of_all, sub_chars, trim, trimmed,
};

verus! {

/// `import ... from '...'` (the imported module in group 1).
pub const IMPORT_FROM_PATTERN: &'static str = "import\\s+.*?from\\s+['\"]([^'\"]+)['\"]";

/// `import '...'`, a side-effect import (the module in group 1).
pub const SIDE_EFFECT_PATTERN: &'static str = "import\\s+['\"]([^'\"]+)['\"]";

/// `import { a, b } from '...'` (the names in group 1, the module in 2).
pub const NAMED_IMPORT_PATTERN: &'static str = "import\\s+\\{([^}]+)\\}\\s+from\\s+['\"]([^'\"]+)['\"]";

/// `import * as name from '...'` (the name in group 1, the module in 2).
pub const NAMESPACE_IMPORT_PATTERN: &'static str = "import\\s+\\*\\s+as\\s+(\\w+)\\s+from\\s+['\"]([^'\"]+)['\"]";

/// `import name from '...'` (the name in group 1, the module in 2).
pub const DEFAULT_IMPORT_PATTERN: &'static str = "import\\s+(\\w+)\\s+from\\s+['\"]([^'\"]+)['\"]";

/// `export { a, b }` (the names in group 1).
pub const EXPORT_NAMES_PATTERN: &'static str = "export\\s+\\{([^}]+)\\}";

/// The name that a declaration declares (group 1).
pub const DECLARED_NAME_PATTERN: &'static str = "(?:const|let|var|function|class)\\s+(\\w+)";

/// What a rewritten module starts with.
pub const MODULE_HEAD: &'static str = "(function() {\n  var exports = {};\n  var __module = {};\n\n";

/// What comes between the rewritten lines and the module's specifier.
pub const MODULE_REGISTER: &'static str = "\n  __registerModule('";

/// What a rewritten module ends with, after its specifier.
pub const MODULE_TAIL: &'static str = "', function() {\n    return exports;\n  });\n})();\n";

/// Name for what `regex::Regex::new(pattern)` and then
/// `Regex::captures_iter(text)` give: `None` where the pattern does not
/// compile; else, for each successive non-overlapping match, the text of each
/// capture group (group 0, the whole match, first), `None` for a group that
/// took no part in it.
pub uninterp spec fn regex_captures(pattern: Seq<char>, text: Seq<char>) -> Option<Seq<Seq<Option<Seq<char>>>>>;

/// The groups of one match, by their views.
pub open spec fn row_view(row: Vec<Option<String>>) -> Seq<Option<Seq<char>>> {
    row@.map_values(|o: Option<String>| opt_view(o))
}

/// The matches of a search, by their views.
pub open spec fn rows_view(rows: Seq<Vec<Option<String>>>) -> Seq<Seq<Option<Seq<char>>>> {
    rows.map_values(|row: Vec<Option<String>>| row_view(row))
}

/// The outcome of a search, by its view.
pub open spec fn captures_view(r: Option<Vec<Vec<Option<String>>>>) -> Option<Seq<Seq<Option<Seq<char>>>>> {
    match r {
        Some(v) => Some(rows_view(v@)),
        None => None,
    }
}

/// Compiles the pattern with `regex::Regex::new` and, where it compiles,
/// runs `Regex::captures_iter` on the text, handing back the groups of each
/// match as strings.  Claimed: the result is `regex_captures` of the two
/// arguments.  What a pattern matches is left unsaid.
#[verifier::external_body]
fn captures_all(pattern: &str, text: &str) -> (r: Option<Vec<Vec<Option<String>>>>)
    ensures
        captures_view(r) == regex_captures(pattern@, text@),
{
    match regex::Regex::new(pattern) {
        Ok(re) => Some(
            re.captures_iter(text).map(|c| c.iter().map(|m| m.map(|m| m.as_str().to_string())).collect()).collect(),
        ),
        Err(_) => None,
    }
}

/// Group `k` of a match, where it took part.
pub open spec fn group(row: Seq<Option<Seq<char>>>, k: int) -> Option<Seq<char>> {
    if 0 <= k < row.len() {
        row[k]
    } else {
        None
    }
}

/// Group 1 of each match in order, skipping a match without it.
pub open spec fn first_groups(ms: Seq<Seq<Option<Seq<char>>>>) -> Seq<Seq<char>>
    decreases ms.len(),
{
    if ms.len() == 0 {
        seq![]
    } else {
        let rest = first_groups(ms.drop_last());
        match group(ms.last(), 1) {
            Some(g) => rest.push(g),
            None => rest,
        }
    }
}

/// The modules that a search names in group 1; none where the pattern does
/// not compile.
pub open spec fn found_modules(r: Option<Seq<Seq<Option<Seq<char>>>>>) -> Seq<Seq<char>> {
    match r {
        Some(ms) => first_groups(ms),
        None => seq![],
    }
}

/// A copy of a string.
fn copy_string(s: &String) -> (r: String)
    ensures
        r@ == s@,
{
    String::from_str(s.as_str())
}

/// Appends group 1 of each match, in order, to `out`.
pub fn collect_modules(matches: &Vec<Vec<Option<String>>>, out: &mut Vec<String>)
    ensures
        str_views(final(out)@) == str_views(old(out)@) + first_groups(rows_view(matches@)),
{
    let ghost start = str_views(out@);
    let mut i: usize = 0;
    while i < matches.len()
        invariant
            i <= matches@.len(),
            str_views(out@) == start + first_groups(rows_view(matches@).take(i as int)),
        decreases matches.len() - i,
    {
        let ghost before = out@;
        let ghost ms = rows_view(matches@);
        assert(ms.take(i + 1).drop_last() =~= ms.take(i as int));
        assert(ms.take(i + 1).last() == row_view(matches@[i as int]));
        let row = &matches[i];
        if row.len() > 1 {
            match &row[1] {
                Some(s) => {
                    assert(row_view(*row)[1] == Some(s@));
                    out.push(copy_string(s));
                    assert(str_views(out@) =~= str_views(before).push(s@));
                },
                None => {
                    assert(row_view(*row)[1] == None::<Seq<char>>);
                },
            }
        }
        i = i + 1;
    }
    assert(rows_view(matches@).take(matches@.len() as int) =~= rows_view(matches@));
}

/// The first match of a search, where the pattern compiles and matches.
pub open spec fn first_match(r: Option<Seq<Seq<Option<Seq<char>>>>>) -> Option<Seq<Option<Seq<char>>>> {
    match r {
        Some(ms) => if ms.len() > 0 {
            Some(ms[0])
        } else {
            None
        },
        None => None,
    }
}

/// Group 1 of the first match.
pub open spec fn group_1(r: Option<Seq<Seq<Option<Seq<char>>>>>) -> Option<Seq<char>> {
    match first_match(r) {
        Some(row) => group(row, 1),
        None => None,
    }
}

/// Groups 1 and 2 of the first match, where both took part.
pub open spec fn groups_1_2(r: Option<Seq<Seq<Option<Seq<char>>>>>) -> Option<(Seq<char>, Seq<char>)> {
    match first_match(r) {
        Some(row) => match group(row, 1) {
            Some(a) => match group(row, 2) {
                Some(b) => Some((a, b)),
                None => None,
            },
            None => None,
        },
        None => None,
    }
}

/// The names of a comma-separated list, each trimmed.
pub open spec fn name_list(s: Seq<char>) -> Seq<Seq<char>> {
    split_char(s, ',').map_values(|p: Seq<char>| trim(p))
}

/// One line per name, `pre name mid name post`, the name trimmed.
pub open spec fn name_lines(names: Seq<Seq<char>>, pre: Seq<char>, mid: Seq<char>, post: Seq<char>) -> Seq<char>
    decreases names.len(),
{
    if names.len() == 0 {
        seq![]
    } else {
        let n = trim(names.last());
        name_lines(names.drop_last(), pre, mid, post) + pre + n + mid + n + post
    }
}

/// A trimmed line of the form `import x from ...`.
pub open spec fn is_default_import_line(t: Seq<char>) -> bool {
    &&& starts_with(t, "import "@)
    &&& contains(t, " from "@)
    &&& !contains(t, "{"@)
    &&& !contains(t, "*"@)
}

/// A trimmed line that `export default` begins can be cut after that word
/// and its following character, which is a single byte.
pub open spec fn export_default_ok(t: Seq<char>) -> bool {
    starts_with(t, "export default"@) ==> t.len() >= 15 && (t[14] as u32) < 128
}

/// A line rewritten, given what the patterns found in it (trimmed): each
/// search is consulted only where the line's beginning calls for it, and a
/// line that none of the rules takes is kept, indented.
pub open spec fn rewrite(
    line: Seq<char>,
    named: Option<Seq<Seq<Option<Seq<char>>>>>,
    namespace: Option<Seq<Seq<Option<Seq<char>>>>>,
    default: Option<Seq<Seq<Option<Seq<char>>>>>,
    export_names: Option<Seq<Seq<Option<Seq<char>>>>>,
    declared: Option<Seq<Seq<Option<Seq<char>>>>>,
) -> Seq<char> {
    let t = trim(line);
    if starts_with(t, "import {"@) && groups_1_2(named) is Some {
        let gs = groups_1_2(named).unwrap();
        "  var __mod = __getModule('"@ + gs.1 + "');\n"@ + name_lines(
            name_list(gs.0),
            "  var "@,
            " = __mod['"@,
            "'];\n"@,
        )
    } else if starts_with(t, "import * as"@) && groups_1_2(namespace) is Some {
        let gs = groups_1_2(namespace).unwrap();
        "  var "@ + gs.0 + " = __getModule('"@ + gs.1 + "');\n"@
    } else if is_default_import_line(t) && groups_1_2(default) is Some {
        let gs = groups_1_2(default).unwrap();
        "  var __mod = __getModule('"@ + gs.1 + "');\n"@ + "  var "@ + gs.0 + " = __mod['default'] || __mod;\n"@
    } else if starts_with(t, "export default"@) {
        "  exports['default'] = "@ + trim(t.subrange(15, t.len() as int)) + ";\n"@
    } else if starts_with(t, "export {"@) && group_1(export_names) is Some {
        name_lines(name_list(group_1(export_names).unwrap()), "  exports['"@, "'] = "@, ";\n"@)
    } else if starts_with(t, "export "@) {
        "  "@ + t.subrange(7, t.len() as int) + "\n"@ + match group_1(declared) {
            Some(v) => "  exports['"@ + v + "'] = "@ + v + ";\n"@,
            None => Seq::<char>::empty(),
        }
    } else {
        "  "@ + line + "\n"@
    }
}

/// A line of module source rewritten.
pub open spec fn line_output(line: Seq<char>) -> Seq<char> {
    let t = trim(line);
    rewrite(
        line,
        regex_captures(NAMED_IMPORT_PATTERN@, t),
        regex_captures(NAMESPACE_IMPORT_PATTERN@, t),
        regex_captures(DEFAULT_IMPORT_PATTERN@, t),
        regex_captures(EXPORT_NAMES_PATTERN@, t),
        regex_captures(DECLARED_NAME_PATTERN@, t.subrange(7, t.len() as int)),
    )
}

/// The lines of module source rewritten, one after the other.
pub open spec fn module_body(ls: Seq<Seq<char>>) -> Seq<char>
    decreases ls.len(),
{
    if ls.len() == 0 {
        seq![]
    } else {
        module_body(ls.drop_last()) + line_output(ls.last())
    }
}

/// Module source rewritten: its lines inside a function that registers the
/// module's `exports` under its specifier.
pub open spec fn transformed_module(specifier: Seq<char>, code: Seq<char>) -> Seq<char> {
    MODULE_HEAD@ + module_body(lines(code)) + MODULE_REGISTER@ + specifier + MODULE_TAIL@
}

/// Group 1 of the first match of a search.
fn first_group(r: &Option<Vec<Vec<Option<String>>>>) -> (g: Option<String>)
    ensures
        opt_view(g) == group_1(captures_view(*r)),
{
    match r {
        Some(ms) => {
            if ms.len() > 0 && ms[0].len() > 1 {
                assert(rows_view(ms@)[0] == row_view(ms@[0]));
                match &ms[0][1] {
                    Some(s) => {
                        assert(row_view(ms@[0])[1] == Some(s@));
                        Some(copy_string(s))
                    },
                    None => {
                        assert(row_view(ms@[0])[1] == None::<Seq<char>>);
                        None
                    },
                }
            } else {
                if ms.len() > 0 {
                    assert(rows_view(ms@)[0] == row_view(ms@[0]));
                }
                None
            }
        },
        None => None,
    }
}

/// Groups 1 and 2 of the first match of a search.
fn first_two_groups(r: &Option<Vec<Vec<Option<String>>>>) -> (g: Option<(String, String)>)
    ensures
        match g {
            Some(p) => groups_1_2(captures_view(*r)) == Some((p.0@, p.1@)),
            None => groups_1_2(captures_view(*r)) is None,
        },
{
    match r {
        Some(ms) => {
            if ms.len() > 0 {
                assert(rows_view(ms@)[0] == row_view(ms@[0]));
            }
            if ms.len() > 0 && ms[0].len() > 2 {
                match (&ms[0][1], &ms[0][2]) {
                    (Some(a), Some(b)) => {
                        assert(row_view(ms@[0])[1] == Some(a@));
                        assert(row_view(ms@[0])[2] == Some(b@));
                        Some((copy_string(a), copy_string(b)))
                    },
                    (Some(a), None) => {
                        assert(row_view(ms@[0])[2] == None::<Seq<char>>);
                        None
                    },
                    (None, _) => {
                        assert(row_view(ms@[0])[1] == None::<Seq<char>>);
                        None
                    },
                }
            } else {
                None
            }
        },
        None => None,
    }
}

/// Appends one line per name of a comma-separated list: `pre name mid name
/// post`, the name trimmed.
fn push_name_lines(out: &mut String, list: &[char], pre: &str, mid: &str, post: &str)
    ensures
        final(out)@ == old(out)@ + name_lines(name_list(list@), pre@, mid@, post@),
{
    let ranges = split_ranges(list, ',');
    let ghost names = name_list(list@);
    assert(names =~= pieces(list@, ranges@).map_values(|p: Seq<char>| trim(p)));
    let ghost start = out@;
    let mut i: usize = 0;
    while i < ranges.len()
        invariant
            i <= ranges@.len(),
            names.len() == ranges@.len(),
            names == pieces(list@, ranges@).map_values(|p: Seq<char>| trim(p)),
            crate::text::valid_ranges(list@, ranges@),
            out@ == start + name_lines(names.take(i as int), pre@, mid@, post@),
        decreases ranges.len() - i,
    {
        let (a, b) = ranges[i];
        let piece = sub_chars(list, a, b);
        let once = trimmed(&piece);
        let twice = trimmed(&once);
        let name = string_of_all(&twice);
        assert(names[i as int] == trim(piece@));
        assert(names.take(i + 1).drop_last() =~= names.take(i as int));
        assert(names.take(i + 1).last() == names[i as int]);
        out.append(pre);
        out.append(name.as_str());
        out.append(mid);
        out.append(name.as_str());
        out.append(post);
        i = i + 1;
    }
    assert(names.take(ranges@.len() as int) =~= names);
}

/// What the patterns found in one trimmed line, each as `regex` gives it.
#[derive(Debug)]
pub struct LineMatches {
    /// The search for `import { .. } from '..'`.
    pub named_import: Option<Vec<Vec<Option<String>>>>,
    /// The search for `import * as .. from '..'`.
    pub namespace_import: Option<Vec<Vec<Option<String>>>>,
    /// The search for `import .. from '..'`.
    pub default_import: Option<Vec<Vec<Option<String>>>>,
    /// The search for `export { .. }`.
    pub export_names: Option<Vec<Vec<Option<String>>>>,
    /// The search for a declared name, in what follows `export `.
    pub declared_name: Option<Vec<Vec<Option<String>>>>,
}

/// A line rewritten, given what the patterns found in it.
pub fn rewrite_line(line: &str, m: &LineMatches) -> (r: String)
    requires
        export_default_ok(trim(line@)),
    ensures
        r@ == rewrite(
            line@,
            captures_view(m.named_import),
            captures_view(m.namespace_import),
            captures_view(m.default_import),
            captures_view(m.export_names),
            captures_view(m.declared_name),
        ),
{
    let lv = chars_of(line);
    let t = trimmed(&lv);
    let mut out = String::new();
    if starts_with_exec(&t, &chars_of("import {")) {
        match first_two_groups(&m.named_import) {
            Some((names, source)) => {
                out.append("  var __mod = __getModule('");
                out.append(source.as_str());
                out.append("');\n");
                let nv = chars_of(names.as_str());
                push_name_lines(&mut out, &nv, "  var ", " = __mod['", "'];\n");
                return out;
            },
            None => {},
        }
    }
    if starts_with_exec(&t, &chars_of("import * as")) {
        match first_two_groups(&m.namespace_import) {
            Some((alias, source)) => {
                out.append("  var ");
                out.append(alias.as_str());
                out.append(" = __getModule('");
                out.append(source.as_str());
                out.append("');\n");
                return out;
            },
            None => {},
        }
    }
    if starts_with_exec(&t, &chars_of("import ")) && find_exec(&t, &chars_of(" from ")).is_some() && find_exec(
        &t,
        &chars_of("{"),
    ).is_none() && find_exec(&t, &chars_of("*")).is_none() {
        match first_two_groups(&m.default_import) {
            Some((name, source)) => {
                out.append("  var __mod = __getModule('");
                out.append(source.as_str());
                out.append("');\n");
                out.append("  var ");
                out.append(name.as_str());
                out.append(" = __mod['default'] || __mod;\n");
                return out;
            },
            None => {},
        }
    }
    if starts_with_exec(&t, &chars_of("export default")) {
        proof {
            reveal_strlit("export default");
        }
        let rest = sub_chars(&t, 15, t.len());
        let value = trimmed(&rest);
        out.append("  exports['default'] = ");
        out.append(string_of_all(&value).as_str());
        out.append(";\n");
        return out;
    }
    if starts_with_exec(&t, &chars_of("export {")) {
        match first_group(&m.export_names) {
            Some(names) => {
                let nv = chars_of(names.as_str());
                push_name_lines(&mut out, &nv, "  exports['", "'] = ", ";\n");
                return out;
            },
            None => {},
        }
    }
    if starts_with_exec(&t, &chars_of("export ")) {
        proof {
            reveal_strlit("export ");
        }
        out.append("  ");
        out.append(string_of(&t, 7, t.len()).as_str());
        out.append("\n");
        match first_group(&m.declared_name) {
            Some(v) => {
                out.append("  exports['");
                out.append(v.as_str());
                out.append("'] = ");
                out.append(v.as_str());
                out.append(";\n");
            },
            None => {},
        }
        return out;
    }
    out.append("  ");
    out.append(line);
    out.append("\n");
    out
}

/// The searches that a trimmed line calls for, run; the others left out.
fn line_matches(t: &[char]) -> (m: LineMatches)
    ensures
        starts_with(t@, "import {"@) ==> captures_view(m.named_import) == regex_captures(NAMED_IMPORT_PATTERN@, t@),
        starts_with(t@, "import * as"@) ==> captures_view(m.namespace_import) == regex_captures(
            NAMESPACE_IMPORT_PATTERN@,
            t@,
        ),
        is_default_import_line(t@) ==> captures_view(m.default_import) == regex_captures(
            DEFAULT_IMPORT_PATTERN@,
            t@,
        ),
        starts_with(t@, "export {"@) ==> captures_view(m.export_names) == regex_captures(EXPORT_NAMES_PATTERN@, t@),
        starts_with(t@, "export "@) ==> captures_view(m.declared_name) == regex_captures(
            DECLARED_NAME_PATTERN@,
            t@.subrange(7, t@.len() as int),
        ),
{
    let ts = string_of_all(t);
    let named_import = if starts_with_exec(t, &chars_of("import {")) {
        captures_all(NAMED_IMPORT_PATTERN, ts.as_str())
    } else {
        None
    };
    let namespace_import = if starts_with_exec(t, &chars_of("import * as")) {
        captures_all(NAMESPACE_IMPORT_PATTERN, ts.as_str())
    } else {
        None
    };
    let default_import = if starts_with_exec(t, &chars_of("import ")) && find_exec(t, &chars_of(" from ")).is_some()
        && find_exec(t, &chars_of("{")).is_none() && find_exec(t, &chars_of("*")).is_none() {
        captures_all(DEFAULT_IMPORT_PATTERN, ts.as_str())
    } else {
        None
    };
    let export_names = if starts_with_exec(t, &chars_of("export {")) {
        captures_all(EXPORT_NAMES_PATTERN, ts.as_str())
    } else {
        None
    };
    let declared_name = if starts_with_exec(t, &chars_of("export ")) {
        proof {
            reveal_strlit("export ");
        }
        let decl = string_of(t, 7, t.len());
        captures_all(DECLARED_NAME_PATTERN, decl.as_str())
    } else {
        None
    };
    LineMatches { named_import, namespace_import, default_import, export_names, declared_name }
}

/// Registered module sources, and the rewriting of module source.
#[derive(Debug)]
pub struct EsModules {
    module_codes: StrMap<String>,
}

impl EsModules {
    /// The source registered under each specifier.
    pub closed spec fn codes(&self) -> Map<Seq<char>, Seq<char>> {
        self.module_codes.sview()
    }

    /// A manager with no modules.
    pub fn new() -> (m: Self)
        ensures
            m.codes() == Map::<Seq<char>, Seq<char>>::empty(),
    {
        let m = EsModules { module_codes: StrMap::new() };
        assert(m.module_codes.sview() =~= Map::<Seq<char>, Seq<char>>::empty());
        m
    }

    /// Registers the source of a module, replacing any earlier one.
    pub fn register_module(&mut self, specifier: &str, code: &str)
        ensures
            final(self).codes() == old(self).codes().insert(specifier@, code@),
    {
        self.module_codes.set_str(specifier, code);
    }

    /// The modules that a source imports: first those of
    /// `import ... from '...'`, then those of side-effect imports, each in
    /// the order found.
    pub fn parse_imports(&self, code: &str) -> (r: Vec<String>)
        ensures
            str_views(r@) == found_modules(regex_captures(IMPORT_FROM_PATTERN@, code@)) + found_modules(
                regex_captures(SIDE_EFFECT_PATTERN@, code@),
            ),
    {
        let mut imports: Vec<String> = Vec::new();
        assert(str_views(imports@) =~= Seq::<Seq<char>>::empty());
        let named = captures_all(IMPORT_FROM_PATTERN, code);
        match &named {
            Some(ms) => collect_modules(ms, &mut imports),
            None => {},
        }
        assert(str_views(imports@) =~= found_modules(regex_captures(IMPORT_FROM_PATTERN@, code@)));
        let side = captures_all(SIDE_EFFECT_PATTERN, code);
        match &side {
            Some(ms) => collect_modules(ms, &mut imports),
            None => {
                assert(str_views(imports@) =~= str_views(imports@) + Seq::<Seq<char>>::empty());
            },
        }
        imports
    }
    /// Module source rewritten so that it runs without module support: each
    /// line by the rules of `rewrite`, inside a function that registers the
    /// module's `exports` under its specifier.
    pub fn transform_module(&self, specifier: &str, code: &str) -> (r: String)
        requires
            forall|i: int| 0 <= i < lines(code@).len() ==> export_default_ok(trim(#[trigger] lines(code@)[i])),
        ensures
            r@ == transformed_module(specifier@, code@),
    {
        let cv = chars_of(code);
        let ranges = line_ranges(&cv);
        let ghost ls = lines(code@);
        let mut out = String::from_str(MODULE_HEAD);
        let mut i: usize = 0;
        while i < ranges.len()
            invariant
                i <= ranges@.len(),
                cv@ == code@,
                ls == lines(code@),
                pieces(cv@, ranges@) == ls,
                crate::text::valid_ranges(cv@, ranges@),
                forall|j: int| 0 <= j < ls.len() ==> export_default_ok(trim(#[trigger] ls[j])),
                out@ == MODULE_HEAD@ + module_body(ls.take(i as int)),
            decreases ranges.len() - i,
        {
            let (a, b) = ranges[i];
            let lc = sub_chars(&cv, a, b);
            assert(lc@ == ls[i as int]);
            let line = string_of_all(&lc);
            let t = trimmed(&lc);
            let m = line_matches(&t);
            let piece = rewrite_line(line.as_str(), &m);
            assert(piece@ == line_output(ls[i as int]));
            assert(ls.take(i + 1).drop_last() =~= ls.take(i as int));
            assert(ls.take(i + 1).last() == ls[i as int]);
            out.append(piece.as_str());
            assert(out@ =~= MODULE_HEAD@ + module_body(ls.take(i + 1)));
            i = i + 1;
        }
        assert(ls.take(ranges@.len() as int) =~= ls);
        out.append(MODULE_REGISTER);
        out.append(specifier);
        out.append(MODULE_TAIL);
        out
    }
}

impl Default for EsModules {
    fn default() -> (m: Self)
        ensures
            m.codes() == Map::<Seq<char>, Seq<char>>::empty(),
    {
        EsModules::new()
    }
}

} // verus!
