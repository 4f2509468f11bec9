//! A light single-file-component compiler meant to run in the browser: it
//! takes the script, template and style blocks of a `.vue` source apart,
//! turns the template into a render function and compiles SCSS styles.
use vstd::prelude::*;
use vstd::string::StringExecFns;
use crate::text::{
    chars_of, contains, find, find_exec, find_from_exec, lemma_find_from, replace_all, replace_exec, str_eq, string_of_all,
    sub_chars, trim, trimmed,
};

verus! {

/// The text between a tag that begins with `open` and the next `close`
/// after the tag's `>`, trimmed; `None` where either is missing.
pub open spec fn block_of(source: Seq<char>, open: Seq<char>, close: Seq<char>) -> Option<Seq<char>> {
    match find(source, open) {
        None => None,
        Some(start) => match find(source.subrange(start, source.len() as int), seq!['>']) {
            None => None,
            Some(k) => {
                let rem = source.subrange(start + k + 1, source.len() as int);
                match find(rem, close) {
                    None => None,
                    Some(e) => Some(trim(rem.subrange(0, e))),
                }
            },
        },
    }
}

/// The text of the block that a tag beginning with `open` starts and
/// `close` ends.
fn block_exec(source: &Vec<char>, open: &str, close: &str) -> (r: Option<Vec<char>>)
    ensures
        match r {
            Some(v) => block_of(source@, open@, close@) == Some(v@),
            None => block_of(source@, open@, close@) is None,
        },
{
    let ov = chars_of(open);
    let cv = chars_of(close);
    let gt: Vec<char> = vec!['>'];
    assert(gt@ =~= seq!['>']);
    proof {
        lemma_find_from(source@, open@, 0);
    }
    let start = match find_exec(source, &ov) {
        Some(s) => s,
        None => return None,
    };
    let after = sub_chars(source, start, source.len());
    proof {
        lemma_find_from(after@, seq!['>'], 0);
    }
    let k = match find_exec(&after, &gt) {
        Some(k) => k,
        None => return None,
    };
    let rem = sub_chars(source, start + k + 1, source.len());
    proof {
        lemma_find_from(rem@, close@, 0);
    }
    let e = match find_exec(&rem, &cv) {
        Some(e) => e,
        None => return None,
    };
    let inner = sub_chars(&rem, 0, e);
    Some(trimmed(&inner))
}

/// Where a template scan is: the render calls written so far, the text
/// since the last tag, the nesting depth, and the tag being read.
pub struct TemplateScan {
    /// The render calls written so far.
    pub html: Seq<char>,
    /// Text read since the last tag.
    pub buf: Seq<char>,
    /// Nesting depth.
    pub depth: int,
    /// Whether a tag is being read.
    pub in_tag: bool,
    /// The tag's name so far.
    pub tag_name: Seq<char>,
    /// The tag's attribute text so far.
    pub attrs: Seq<char>,
    /// Whether the name has ended and attributes are being read.
    pub in_attrs: bool,
    /// Whether a `/` was seen among the attributes.
    pub self_closing: bool,
}

/// Two spaces per level of depth.
pub open spec fn indent(d: int) -> Seq<char>
    decreases d,
{
    if d <= 0 {
        seq![]
    } else {
        indent(d - 1) + seq![' ', ' ']
    }
}

/// The scan before the first character.
pub open spec fn scan_start() -> TemplateScan {
    TemplateScan {
        html: seq![],
        buf: seq![],
        depth: 0,
        in_tag: false,
        tag_name: seq![],
        attrs: seq![],
        in_attrs: false,
        self_closing: false,
    }
}

/// The scan after one more character.  A `<` writes the text read since the
/// last tag as a `span` and starts a tag; a `>` that ends a tag writes it as
/// a call (one level deeper), unless a `/` was seen among its attributes,
/// which only steps a level out; a `/` or space before the name is skipped;
/// the first space after the name starts the attributes.
pub open spec fn scan_step(s: TemplateScan, c: char) -> TemplateScan {
    if c == '<' {
        let t = trim(s.buf);
        TemplateScan {
            html: if t.len() > 0 {
                s.html + indent(s.depth) + "h('span', {}, '"@ + t + "'),\n"@
            } else {
                s.html
            },
            buf: if t.len() > 0 {
                seq![]
            } else {
                s.buf
            },
            depth: s.depth,
            in_tag: true,
            tag_name: seq![],
            attrs: seq![],
            in_attrs: false,
            self_closing: false,
        }
    } else if c == '>' && s.in_tag {
        if s.self_closing || (s.tag_name.len() > 0 && s.tag_name[0] == '/') {
            TemplateScan {
                html: s.html,
                buf: seq![],
                depth: s.depth - 1,
                in_tag: false,
                tag_name: s.tag_name,
                attrs: s.attrs,
                in_attrs: s.in_attrs,
                self_closing: s.self_closing,
            }
        } else {
            TemplateScan {
                html: s.html + indent(s.depth) + "h('"@ + s.tag_name + "', "@ + s.attrs + "),\n"@,
                buf: seq![],
                depth: s.depth + 1,
                in_tag: false,
                tag_name: s.tag_name,
                attrs: s.attrs,
                in_attrs: s.in_attrs,
                self_closing: s.self_closing,
            }
        }
    } else if s.in_tag && (c == '/' || c == ' ') && s.tag_name.len() == 0 {
        s
    } else if c == ' ' && s.in_tag && !s.in_attrs {
        TemplateScan { in_attrs: true, ..s }
    } else if c == '/' && s.in_tag && s.in_attrs {
        TemplateScan { self_closing: true, ..s }
    } else if s.in_tag {
        if s.in_attrs {
            TemplateScan { attrs: s.attrs.push(c), ..s }
        } else {
            TemplateScan { tag_name: s.tag_name.push(c), ..s }
        }
    } else {
        TemplateScan { buf: s.buf.push(c), ..s }
    }
}

/// The scan after the first `n` characters.
pub open spec fn scan(cs: Seq<char>, n: int) -> TemplateScan
    decreases n,
{
    if n <= 0 {
        scan_start()
    } else {
        scan_step(scan(cs, n - 1), cs[n - 1])
    }
}

/// The render function of a template: one `h(..)` call per opening tag and
/// per text run, indented by depth, in a function that returns them; empty
/// for an empty template.
pub open spec fn render_of(template: Seq<char>) -> Seq<char> {
    let inner = trim(template);
    if inner.len() == 0 {
        seq![]
    } else {
        "function() { const h = arguments[0]; return [\n"@ + scan(inner, inner.len() as int).html + "] }"@
    }
}

/// Appends two spaces per level of depth.
fn push_indent(html: &mut String, depth: i128)
    ensures
        final(html)@ == old(html)@ + indent(depth as int),
    decreases depth,
{
    if depth > 0 {
        push_indent(html, depth - 1);
        html.append("  ");
        proof {
            reveal_strlit("  ");
        }
        assert(final(html)@ =~= old(html)@ + indent(depth as int));
    }
}

/// The render function of a template.
pub fn template_to_render(template: &str) -> (r: String)
    ensures
        r@ == render_of(template@),
{
    let tv = chars_of(template);
    let inner = trimmed(&tv);
    if inner.len() == 0 {
        return String::new();
    }
    let mut html = String::new();
    let mut buf: Vec<char> = Vec::new();
    let mut depth: i128 = 0;
    let mut in_tag = false;
    let mut tag_name: Vec<char> = Vec::new();
    let mut attrs: Vec<char> = Vec::new();
    let mut in_attrs = false;
    let mut self_closing = false;
    let n = inner.len();
    let mut i: usize = 0;
    while i < n
        invariant
            n == inner@.len(),
            i <= n,
            -(i as int) <= depth <= i as int,
            scan(inner@, i as int) == (TemplateScan {
                html: html@,
                buf: buf@,
                depth: depth as int,
                in_tag,
                tag_name: tag_name@,
                attrs: attrs@,
                in_attrs,
                self_closing,
            }),
        decreases n - i,
    {
        let c = inner[i];
        if c == '<' {
            let t = trimmed(&buf);
            if t.len() > 0 {
                push_indent(&mut html, depth);
                html.append("h('span', {}, '");
                html.append(string_of_all(&t).as_str());
                html.append("'),\n");
                buf = Vec::new();
            }
            in_tag = true;
            tag_name = Vec::new();
            attrs = Vec::new();
            in_attrs = false;
            self_closing = false;
        } else if c == '>' && in_tag {
            in_tag = false;
            if self_closing || (tag_name.len() > 0 && tag_name[0] == '/') {
                depth = depth - 1;
            } else {
                push_indent(&mut html, depth);
                html.append("h('");
                html.append(string_of_all(&tag_name).as_str());
                html.append("', ");
                html.append(string_of_all(&attrs).as_str());
                html.append("),\n");
                depth = depth + 1;
            }
            buf = Vec::new();
        } else if in_tag && (c == '/' || c == ' ') && tag_name.len() == 0 {
        } else if c == ' ' && in_tag && !in_attrs {
            in_attrs = true;
        } else if c == '/' && in_tag && in_attrs {
            self_closing = true;
        } else if in_tag {
            if in_attrs {
                attrs.push(c);
            } else {
                tag_name.push(c);
            }
        } else {
            buf.push(c);
        }
        assert(buf@ =~= scan(inner@, i + 1).buf);
        assert(tag_name@ =~= scan(inner@, i + 1).tag_name);
        assert(attrs@ =~= scan(inner@, i + 1).attrs);
        assert(html@ =~= scan(inner@, i + 1).html);
        i = i + 1;
    }
    let mut out = String::from_str("function() { const h = arguments[0]; return [\n");
    out.append(html.as_str());
    out.append("] }");
    out
}

/// The end of a style block.
pub open spec fn style_close() -> Seq<char> {
    seq!['<', '/', 's', 't', 'y', 'l', 'e', '>']
}

/// A style block as the source has it.
pub struct StyleScan {
    /// Its text, trimmed.
    pub code: Seq<char>,
    /// Whether `scoped` occurs from its tag on.
    pub scoped: bool,
    /// Whether `lang="scss"` or `lang='scss'` occurs from its tag on.
    pub scss: bool,
}

/// The style blocks of the source from position `from` on, in order: each
/// starts at a `<style` tag, whose text runs from the tag's `>` to the next
/// `</style>`; a block without either ends the list.  Whether a block is
/// scoped or SCSS is read from all the source that follows its tag.
pub open spec fn styles_from(source: Seq<char>, from: int) -> Seq<StyleScan>
    decreases source.len() - from,
{
    if from < 0 || from > source.len() {
        seq![]
    } else {
        let rest = source.subrange(from, source.len() as int);
        proof {
            lemma_find_from(rest, "<style"@, 0);
        }
        match find(rest, "<style"@) {
            None => seq![],
            Some(s) => {
                let start = from + s;
                let after = source.subrange(start, source.len() as int);
                proof {
                    lemma_find_from(after, seq!['>'], 0);
                }
                match find(after, seq!['>']) {
                    None => seq![],
                    Some(k) => {
                        let cs = start + k + 1;
                        let rem = source.subrange(cs, source.len() as int);
                        proof {
                            lemma_find_from(rem, style_close(), 0);
                        }
                        match find(rem, style_close()) {
                            None => seq![],
                            Some(e) => seq![
                                StyleScan {
                                    code: trim(rem.subrange(0, e)),
                                    scoped: contains(after, "scoped"@),
                                    scss: contains(after, "lang=\"scss\""@) || contains(after, "lang='scss'"@),
                                },
                            ] + styles_from(source, cs + e + 8),
                        }
                    },
                }
            },
        }
    }
}

/// A style block of a compiled component.
#[derive(Debug, Clone)]
pub struct StyleBlock {
    /// Its CSS.
    pub code: String,
    /// Whether it applies to the component only.
    pub scoped: bool,
    /// `scss` or `css`.
    pub lang: String,
}

/// A block as the source has it: its scoping, its language and its text.
pub open spec fn style_agrees(b: StyleBlock, s: StyleScan) -> bool {
    &&& b.scoped == s.scoped
    &&& b.lang@ == (if s.scss {
        "scss"@
    } else {
        "css"@
    })
    &&& b.code@ == s.code
}

/// What compiling an SCSS block gave, by its plain values.
pub open spec fn outcome_view(r: Result<String, String>) -> Result<Seq<char>, Seq<char>> {
    match r {
        Ok(c) => Ok(c@),
        Err(e) => Err(e@),
    }
}

/// The CSS of a block: for an SCSS block with a compiler outcome, the CSS
/// it gave, or the block's text where compiling failed; else the text.
pub open spec fn block_css(s: StyleScan, outcome: Option<Result<Seq<char>, Seq<char>>>) -> Seq<char> {
    if s.scss {
        match outcome {
            Some(Ok(css)) => css,
            _ => s.code,
        }
    } else {
        s.code
    }
}

/// A compiled block agrees with the block in the source and with what
/// compiling it gave.
pub open spec fn style_compiled(b: StyleBlock, s: StyleScan, outcome: Option<Result<Seq<char>, Seq<char>>>) -> bool {
    &&& b.scoped == s.scoped
    &&& b.lang@ == (if s.scss {
        "scss"@
    } else {
        "css"@
    })
    &&& b.code@ == block_css(s, outcome)
}

/// The CSS that compiling an SCSS block gave, or the block itself where
/// compiling failed.
pub fn css_or_source(code: &str, compiled: Result<String, String>) -> (r: String)
    ensures
        match compiled {
            Ok(css) => r@ == css@,
            Err(_) => r@ == code@,
        },
{
    match compiled {
        Ok(css) => css,
        Err(_) => String::from_str(code),
    }
}

/// The style blocks of a component as its source has them: each block's
/// text, whether it is scoped, and its language (`scss` or `css`).
pub fn style_blocks(source: &str) -> (r: Vec<StyleBlock>)
    ensures
        r@.len() == styles_from(source@, 0).len(),
        forall|j: int| 0 <= j < r@.len() ==> style_agrees(r@[j], styles_from(source@, 0)[j]),
{
    let sv = chars_of(source);
    extract_styles(&sv)
}

/// The style blocks of a component, as its source has them.
fn extract_styles(source: &Vec<char>) -> (r: Vec<StyleBlock>)
    ensures
        r@.len() == styles_from(source@, 0).len(),
        forall|j: int| 0 <= j < r@.len() ==> style_agrees(r@[j], styles_from(source@, 0)[j]),
{
    let open = chars_of("<style");
    let gt: Vec<char> = vec!['>'];
    let close: Vec<char> = vec!['<', '/', 's', 't', 'y', 'l', 'e', '>'];
    let scoped_kw = chars_of("scoped");
    let scss_dq = chars_of("lang=\"scss\"");
    let scss_sq = chars_of("lang='scss'");
    assert(gt@ =~= seq!['>']);
    assert(close@ =~= style_close());
    let ghost all = styles_from(source@, 0);
    let ghost mut done: Seq<StyleScan> = seq![];
    let mut styles: Vec<StyleBlock> = Vec::new();
    let mut from: usize = 0;
    loop
        invariant
            from <= source@.len(),
            gt@ == seq!['>'],
            close@ == style_close(),
            open@ == "<style"@,
            scoped_kw@ == "scoped"@,
            scss_dq@ == "lang=\"scss\""@,
            scss_sq@ == "lang='scss'"@,
            all == styles_from(source@, 0),
            all == done + styles_from(source@, from as int),
            styles@.len() == done.len(),
            forall|j: int| 0 <= j < done.len() ==> style_agrees(#[trigger] styles@[j], done[j]),
        decreases source@.len() - from,
    {
        let rest = sub_chars(source, from, source.len());
        proof {
            lemma_find_from(rest@, open@, 0);
        }
        let s = match find_exec(&rest, &open) {
            Some(s) => s,
            None => {
                assert(all =~= done);
                return styles;
            },
        };
        let start = from + s;
        let after = sub_chars(source, start, source.len());
        proof {
            lemma_find_from(after@, seq!['>'], 0);
        }
        let k = match find_exec(&after, &gt) {
            Some(k) => k,
            None => {
                assert(all =~= done);
                return styles;
            },
        };
        let cs = start + k + 1;
        let rem = sub_chars(source, cs, source.len());
        proof {
            lemma_find_from(rem@, style_close(), 0);
        }
        let e = match find_exec(&rem, &close) {
            Some(e) => e,
            None => {
                assert(all =~= done);
                return styles;
            },
        };
        let scoped = find_exec(&after, &scoped_kw).is_some();
        let scss = find_exec(&after, &scss_dq).is_some() || find_exec(&after, &scss_sq).is_some();
        let inner = sub_chars(&rem, 0, e);
        let code = trimmed(&inner);
        let code_s = string_of_all(&code);
        let block = if scss {
            StyleBlock { code: code_s, scoped, lang: String::from_str("scss") }
        } else {
            StyleBlock { code: code_s, scoped, lang: String::from_str("css") }
        };
        let ghost scan_item = StyleScan { code: code@, scoped, scss };
        assert(styles_from(source@, from as int) == seq![scan_item] + styles_from(source@, cs + e + 8));
        styles.push(block);
        proof {
            done = done.push(scan_item);
            assert(all =~= done + styles_from(source@, cs + e + 8));
        }
        from = cs + e + 8;
    }
}

/// The script of a compiled component: the source's script with the
/// template's render function put into its `export default {` object, or
/// exported after it where it exports nothing; a render function alone
/// exported by itself; and the source unchanged where it has neither.
pub open spec fn final_script(source: Seq<char>) -> Seq<char> {
    let script = block_of(source, "<script"@, "</script>"@);
    let render = match block_of(source, "<template"@, "</template>"@) {
        Some(t) => render_of(t),
        None => seq![],
    };
    if script is Some || render.len() > 0 {
        match script {
            Some(s) => if render.len() > 0 {
                if contains(s, "export default"@) {
                    replace_all(s, "export default {"@, "export default {\n  render: "@ + render + ","@)
                } else {
                    s + "\n\nconst __sfc__ = { render: "@ + render + " };\nexport default __sfc__;"@
                }
            } else {
                s
            },
            None => "export default { render: "@ + render + " };"@,
        }
    } else {
        source
    }
}

/// What compiling a component gives.
#[derive(Debug)]
pub struct CompileResult {
    /// The component's script.
    pub script: String,
    /// Its style blocks.
    pub styles: Vec<StyleBlock>,
    /// Its dependencies (none are collected).
    pub deps: Vec<String>,
    /// Its source map (none is made).
    pub source_map: Option<String>,
}

/// Compiles a single-file component: its script with the template's render
/// function, and its style blocks, each SCSS block replaced by the CSS that
/// compiling it gave (`scss_outcomes[j]` for the `j`-th block of
/// `style_blocks`), or kept where that failed or is not given.
pub fn compile_sfc(source: &str, filename: &str, scss_outcomes: &Vec<Result<String, String>>) -> (r: CompileResult)
    ensures
        r.script@ == final_script(source@),
        r.styles@.len() == styles_from(source@, 0).len(),
        forall|j: int|
            0 <= j < r.styles@.len() ==> style_compiled(
                r.styles@[j],
                styles_from(source@, 0)[j],
                if j < scss_outcomes@.len() {
                    Some(outcome_view(scss_outcomes@[j]))
                } else {
                    None
                },
            ),
        r.deps@.len() == 0,
        r.source_map is None,
{
    let sv = chars_of(source);
    let script = block_exec(&sv, "<script", "</script>");
    let raw = extract_styles(&sv);
    let ghost all = styles_from(source@, 0);
    let mut styles: Vec<StyleBlock> = Vec::new();
    let mut j: usize = 0;
    while j < raw.len()
        invariant
            j <= raw@.len(),
            all == styles_from(source@, 0),
            raw@.len() == all.len(),
            forall|k: int| 0 <= k < raw@.len() ==> style_agrees(raw@[k], all[k]),
            styles@.len() == j,
            forall|k: int|
                0 <= k < j ==> style_compiled(
                    #[trigger] styles@[k],
                    all[k],
                    if k < scss_outcomes@.len() {
                        Some(outcome_view(scss_outcomes@[k]))
                    } else {
                        None
                    },
                ),
        decreases raw@.len() - j,
    {
        let b = &raw[j];
        let is_scss = str_eq(b.lang.as_str(), "scss");
        proof {
            reveal_strlit("scss");
            reveal_strlit("css");
            assert(style_agrees(raw@[j as int], all[j as int]));
            assert("css"@.len() != "scss"@.len());
            assert(is_scss == all[j as int].scss);
        }
        let code = if is_scss && j < scss_outcomes.len() {
            match &scss_outcomes[j] {
                Ok(css) => String::from_str(css.as_str()),
                Err(_) => String::from_str(b.code.as_str()),
            }
        } else {
            String::from_str(b.code.as_str())
        };
        styles.push(StyleBlock { code, scoped: b.scoped, lang: String::from_str(b.lang.as_str()) });
        j = j + 1;
    }
    let template = block_exec(&sv, "<template", "</template>");
    let render = match &template {
        Some(t) => template_to_render(string_of_all(t).as_str()),
        None => String::new(),
    };
    let rv = chars_of(render.as_str());
    let final_script = if script.is_some() || rv.len() > 0 {
        match &script {
            Some(s) => {
                if rv.len() > 0 {
                    if find_exec(s, &chars_of("export default")).is_some() {
                        let pat = chars_of("export default {");
                        proof {
                            reveal_strlit("export default {");
                        }
                        let with = String::from_str("export default {\n  render: ").concat(render.as_str()).concat(",");
                        let wv = chars_of(with.as_str());
                        string_of_all(&replace_exec(s, &pat, &wv))
                    } else {
                        string_of_all(s).concat("\n\nconst __sfc__ = { render: ").concat(render.as_str()).concat(
                            " };\nexport default __sfc__;",
                        )
                    }
                } else {
                    string_of_all(s)
                }
            },
            None => String::from_str("export default { render: ").concat(render.as_str()).concat(" };"),
        }
    } else {
        String::from_str(source)
    };
    CompileResult { script: final_script, styles, deps: Vec::new(), source_map: None }
}

/// Clears the compiler's cache, which holds nothing.
pub fn clear_cache() {
}

} // verus!
