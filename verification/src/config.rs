//! Report settings: output format, line-counting mode, the `.sheatrc`
//! settings file and how command-line options combine with it.

use vstd::prelude::*;
use vstd::string::StringExecFns;
use crate::count::next_newline_in;
use crate::text::{
    chars_of, decimal, decimal_chars, find, find_in, lines, lines_from, next_newline, trim_end, trim_start,
    parse_usize_in, parse_usize_spec, range_eq_lit, starts_with, string_of, string_of_range, trim,
    trim_range,
};

verus! {

/// Output format of the report.
#[derive(Debug, Clone, Copy, PartialEq, Eq, Structural)]
pub enum Format {
    Markdown,
    Json,
    Html,
}

/// How the lines of a file are counted.
#[derive(Debug, Clone, Copy, PartialEq, Eq, Structural)]
pub enum LineMode {
    /// Every line, blank and comment lines included.
    Physical,
    /// Source lines: blank lines and comment-only lines are left out.
    Sloc,
}


/// The format that `s` names.
pub open spec fn format_named(s: Seq<char>) -> Option<Format> {
    if s == "markdown"@ {
        Some(Format::Markdown)
    } else if s == "json"@ {
        Some(Format::Json)
    } else if s == "html"@ {
        Some(Format::Html)
    } else {
        None
    }
}

/// The line mode that `s` names.
pub open spec fn line_mode_named(s: Seq<char>) -> Option<LineMode> {
    if s == "physical"@ {
        Some(LineMode::Physical)
    } else if s == "sloc"@ {
        Some(LineMode::Sloc)
    } else {
        None
    }
}

fn str_eq_lit(s: &str, lit: &str) -> (r: bool)
    ensures
        r == (s@ == lit@),
{
    let v = chars_of(s);
    assert(v@.subrange(0, v@.len() as int) =~= v@);
    range_eq_lit(&v, 0, v.len(), lit)
}

/// The string `a` followed by `b`.
fn concat(a: &str, b: &str) -> (r: String)
    ensures
        r@ == a@ + b@,
{
    let mut r = <String as StringExecFns>::from_str(a);
    r.append(b);
    r
}

impl Format {
    /// The format named by `s`: `markdown`, `json` or `html`.
    pub fn parse(s: &str) -> (r: Result<Format, String>)
        ensures
            match r {
                Ok(f) => format_named(s@) == Some(f),
                Err(e) => format_named(s@) is None && e@ == "unknown format: "@ + s@,
            },
    {
        if str_eq_lit(s, "markdown") {
            Ok(Format::Markdown)
        } else if str_eq_lit(s, "json") {
            Ok(Format::Json)
        } else if str_eq_lit(s, "html") {
            Ok(Format::Html)
        } else {
            Err(concat("unknown format: ", s))
        }
    }
}

impl LineMode {
    /// The line mode named by `s`: `physical` or `sloc`.
    pub fn parse(s: &str) -> (r: Result<LineMode, String>)
        ensures
            match r {
                Ok(m) => line_mode_named(s@) == Some(m),
                Err(e) => line_mode_named(s@) is None && e@ == "unknown line-mode: "@ + s@,
            },
    {
        if str_eq_lit(s, "physical") {
            Ok(LineMode::Physical)
        } else if str_eq_lit(s, "sloc") {
            Ok(LineMode::Sloc)
        } else {
            Err(concat("unknown line-mode: ", s))
        }
    }
}

/// The name of a format, as reports print it.
pub open spec fn format_name(f: Format) -> Seq<char> {
    match f {
        Format::Markdown => "markdown"@,
        Format::Json => "json"@,
        Format::Html => "html"@,
    }
}

/// The name of a line mode, as reports print it.
pub open spec fn line_mode_name(m: LineMode) -> Seq<char> {
    match m {
        LineMode::Physical => "physical"@,
        LineMode::Sloc => "sloc"@,
    }
}

impl Format {
    /// The name of this format.
    pub fn name(&self) -> (r: &'static str)
        ensures
            r@ == format_name(*self),
    {
        match self {
            Format::Markdown => "markdown",
            Format::Json => "json",
            Format::Html => "html",
        }
    }
}

impl LineMode {
    /// The name of this line mode.
    pub fn name(&self) -> (r: &'static str)
        ensures
            r@ == line_mode_name(*self),
    {
        match self {
            LineMode::Physical => "physical",
            LineMode::Sloc => "sloc",
        }
    }
}

/// The name a report prints for a format or a line mode is the one that
/// selects it again.
pub proof fn lemma_names_parse_back(f: Format, m: LineMode)
    ensures
        format_named(format_name(f)) == Some(f),
        line_mode_named(line_mode_name(m)) == Some(m),
{
    reveal_strlit("markdown");
    reveal_strlit("json");
    reveal_strlit("html");
    reveal_strlit("physical");
    reveal_strlit("sloc");
    assert("json"@.len() != "markdown"@.len());
    assert("html"@.len() != "markdown"@.len());
    assert("html"@[0] != "json"@[0]);
    assert("sloc"@.len() != "physical"@.len());
}

impl std::str::FromStr for Format {
    type Err = String;

    fn from_str(s: &str) -> (r: Result<Self, Self::Err>)
        ensures
            match r {
                Ok(f) => format_named(s@) == Some(f),
                Err(e) => format_named(s@) is None && e@ == "unknown format: "@ + s@,
            },
    {
        Format::parse(s)
    }
}

impl std::str::FromStr for LineMode {
    type Err = String;

    fn from_str(s: &str) -> (r: Result<Self, Self::Err>)
        ensures
            match r {
                Ok(m) => line_mode_named(s@) == Some(m),
                Err(e) => line_mode_named(s@) is None && e@ == "unknown line-mode: "@ + s@,
            },
    {
        LineMode::parse(s)
    }
}

/// The settings a `.sheatrc` file gives; `P` is how paths are held and `R`
/// how the hotspot ratio is.
#[derive(Debug, Clone)]
pub struct FileConfig<P, R> {
    pub target: Option<P>,
    pub format: Option<Format>,
    pub output: Option<P>,
    pub ignore: Vec<String>,
    pub include_hidden: Option<bool>,
    pub line_mode: Option<LineMode>,
    pub min_ratio: Option<R>,
    pub max_depth: Option<usize>,
}

/// A `min-ratio` setting as written, with its line number (from 1); the
/// text is checked as a number by whoever reads it as one.
#[derive(Debug, Clone)]
pub struct RatioLine {
    pub line: usize,
    pub value: String,
}

/// A settings-file error: the line (from 0) where it arose and its message.
#[derive(Debug, Clone)]
pub struct ConfigError {
    pub line: usize,
    pub message: String,
}

/// What reading a settings file gives: the settings of the lines before the
/// first error, every `min-ratio` setting among them, and the error.
#[derive(Debug, Clone)]
pub struct ConfigParse {
    pub config: FileConfig<String, String>,
    pub ratio_lines: Vec<RatioLine>,
    pub error: Option<ConfigError>,
}

/// The settings as text values.
#[verifier::ext_equal]
pub struct SettingsModel {
    pub target: Option<Seq<char>>,
    pub format: Option<Format>,
    pub output: Option<Seq<char>>,
    pub ignore: Seq<Seq<char>>,
    pub include_hidden: Option<bool>,
    pub line_mode: Option<LineMode>,
    pub min_ratio: Option<Seq<char>>,
    pub max_depth: Option<usize>,
    /// Every `min-ratio` setting, as (line number from 1, text).
    pub ratio_lines: Seq<(nat, Seq<char>)>,
}

pub open spec fn opt_text(o: Option<String>) -> Option<Seq<char>> {
    match o {
        Some(s) => Some(s@),
        None => None,
    }
}

/// The settings held by `fc` and `ratios`.
pub open spec fn settings_of(fc: FileConfig<String, String>, ratios: Seq<RatioLine>) -> SettingsModel {
    SettingsModel {
        target: opt_text(fc.target),
        format: fc.format,
        output: opt_text(fc.output),
        ignore: fc.ignore@.map_values(|s: String| s@),
        include_hidden: fc.include_hidden,
        line_mode: fc.line_mode,
        min_ratio: opt_text(fc.min_ratio),
        max_depth: fc.max_depth,
        ratio_lines: ratios.map_values(|r: RatioLine| (r.line as nat, r.value@)),
    }
}

/// No settings.
pub open spec fn empty_settings() -> SettingsModel {
    SettingsModel {
        target: None,
        format: None,
        output: None,
        ignore: Seq::empty(),
        include_hidden: None,
        line_mode: None,
        min_ratio: None,
        max_depth: None,
        ratio_lines: Seq::empty(),
    }
}

/// The start of a message about line `n` (from 1).
pub open spec fn at_line(n: nat) -> Seq<char> {
    "line "@ + decimal(n) + ": "@
}

/// The effect of line `idx` (from 0) of a settings file on the settings `m`:
/// blank lines and `#` comments change nothing; any other line is
/// `key = value` with a known key and a value that key accepts.
pub open spec fn apply_line(m: SettingsModel, idx: nat, raw: Seq<char>) -> Result<SettingsModel, Seq<char>> {
    let line = trim(raw);
    let n = idx + 1;
    if line.len() == 0 || starts_with(line, "#"@) {
        Ok(m)
    } else {
        match find(line, "="@) {
            None => Err(at_line(n) + "invalid config line: "@ + line),
            Some(i) => {
                let key = trim(line.take(i));
                let val = trim(line.skip(i + 1));
                if key == "target"@ {
                    Ok(SettingsModel { target: Some(val), ..m })
                } else if key == "format"@ {
                    match format_named(val) {
                        Some(f) => Ok(SettingsModel { format: Some(f), ..m }),
                        None => Err(at_line(n) + "unknown format: "@ + val),
                    }
                } else if key == "output"@ {
                    Ok(SettingsModel { output: Some(val), ..m })
                } else if key == "ignore"@ {
                    Ok(SettingsModel { ignore: m.ignore.push(val), ..m })
                } else if key == "include-hidden"@ {
                    if val == "true"@ {
                        Ok(SettingsModel { include_hidden: Some(true), ..m })
                    } else if val == "false"@ {
                        Ok(SettingsModel { include_hidden: Some(false), ..m })
                    } else {
                        Err(at_line(n) + "invalid boolean: "@ + val)
                    }
                } else if key == "line-mode"@ {
                    match line_mode_named(val) {
                        Some(l) => Ok(SettingsModel { line_mode: Some(l), ..m }),
                        None => Err(at_line(n) + "unknown line-mode: "@ + val),
                    }
                } else if key == "min-ratio"@ {
                    Ok(
                        SettingsModel {
                            min_ratio: Some(val),
                            ratio_lines: m.ratio_lines.push((n, val)),
                            ..m
                        },
                    )
                } else if key == "max-depth"@ {
                    match parse_usize_spec(val) {
                        Some(d) => Ok(SettingsModel { max_depth: Some(d), ..m }),
                        None => Err(at_line(n) + "invalid integer for max-depth: "@ + val),
                    }
                } else {
                    Err("unknown configuration key: "@ + key)
                }
            },
        }
    }
}

/// A boolean setting takes the value written: on a line whose key (the text
/// before its first `=`, trimmed) is `include-hidden`, the value `true`
/// turns hidden paths on, `false` turns them off, other settings are left as
/// they were, and any other value is an error.
pub proof fn lemma_include_hidden_value(m: SettingsModel, idx: nat, raw: Seq<char>, i: int)
    requires
        find(trim(raw), "="@) == Some(i),
        trim(trim(raw).take(i)) == "include-hidden"@,
    ensures
        trim(trim(raw).skip(i + 1)) == "true"@ ==> apply_line(m, idx, raw) == Ok::<
            SettingsModel,
            Seq<char>,
        >(SettingsModel { include_hidden: Some(true), ..m }),
        trim(trim(raw).skip(i + 1)) == "false"@ ==> apply_line(m, idx, raw) == Ok::<
            SettingsModel,
            Seq<char>,
        >(SettingsModel { include_hidden: Some(false), ..m }),
        trim(trim(raw).skip(i + 1)) != "true"@ && trim(trim(raw).skip(i + 1)) != "false"@
            ==> apply_line(m, idx, raw) is Err,
{
    let line = trim(raw);
    let key = trim(line.take(i));
    reveal_strlit("include-hidden");
    reveal_strlit("#");
    reveal_strlit("=");
    reveal_strlit("target");
    reveal_strlit("format");
    reveal_strlit("output");
    reveal_strlit("ignore");
    reveal_strlit("true");
    reveal_strlit("false");
    crate::text::lemma_find(line, "="@);
    assert(line.len() > 0);
    crate::text::lemma_trim_first(raw);
    assert(i > 0) by {
        if i == 0 {
            assert(line.take(0) =~= Seq::<char>::empty());
            assert(trim(Seq::<char>::empty()) =~= Seq::<char>::empty());
        }
    }
    let pre = line.take(i);
    assert(pre[0] == line[0]);
    assert(trim_start(pre) == pre);
    crate::text::lemma_trim_end_prefix(pre);
    assert(key == trim_end(pre));
    assert(key[0] == pre[0]);
    assert(line[0] == 'i');
    assert(!starts_with(line, "#"@)) by {
        if starts_with(line, "#"@) {
            assert(line.subrange(0, 1)[0] == line[0]);
        }
    }
    assert(key != "target"@ && key != "format"@ && key != "output"@ && key != "ignore"@) by {
        assert(key.len() != "target"@.len());
    }
}

/// The settings after the lines `ls`, the first of which is line `idx`,
/// up to the first error, and that error with its line.
pub open spec fn apply_lines(ls: Seq<Seq<char>>, idx: nat, m: SettingsModel) -> (
    SettingsModel,
    Option<(nat, Seq<char>)>,
)
    decreases ls.len(),
{
    if ls.len() == 0 {
        (m, None)
    } else {
        match apply_line(m, idx, ls[0]) {
            Ok(m2) => apply_lines(ls.drop_first(), idx + 1, m2),
            Err(msg) => (m, Some((idx, msg))),
        }
    }
}


/// `"line {n}: "` followed by `text` and `val`.
fn line_message(n: usize, text: &str, val: &str) -> (r: String)
    ensures
        r@ == at_line(n as nat) + text@ + val@,
{
    let mut r = <String as StringExecFns>::from_str("line ");
    let digits = string_of(&decimal_chars(n));
    r.append(digits.as_str());
    r.append(": ");
    r.append(text);
    r.append(val);
    r
}

proof fn lemma_push_map_values(s: Seq<String>, x: String)
    ensures
        s.push(x).map_values(|t: String| t@) == s.map_values(|t: String| t@).push(x@),
{
    assert(s.push(x).map_values(|t: String| t@) =~= s.map_values(|t: String| t@).push(x@));
}

proof fn lemma_push_ratio(s: Seq<RatioLine>, x: RatioLine)
    ensures
        s.push(x).map_values(|r: RatioLine| (r.line as nat, r.value@)) == s.map_values(
            |r: RatioLine| (r.line as nat, r.value@),
        ).push((x.line as nat, x.value@)),
{
    assert(s.push(x).map_values(|r: RatioLine| (r.line as nat, r.value@)) =~= s.map_values(
        |r: RatioLine| (r.line as nat, r.value@),
    ).push((x.line as nat, x.value@)));
}

/// Applies line `idx` (from 0), `v[lo..hi]`, of a settings file to `fc` and
/// `ratios`; on an error nothing changes.
fn apply_config_line(
    v: &Vec<char>,
    lo: usize,
    hi: usize,
    idx: usize,
    fc: &mut FileConfig<String, String>,
    ratios: &mut Vec<RatioLine>,
) -> (r: Result<(), String>)
    requires
        lo <= hi <= v.len(),
        idx < usize::MAX,
    ensures
        match apply_line(settings_of(*old(fc), old(ratios)@), idx as nat, v@.subrange(lo as int, hi as int)) {
            Ok(m) => r is Ok && settings_of(*final(fc), final(ratios)@) == m,
            Err(msg) => r matches Err(e) && e@ == msg && *final(fc) == *old(fc) && final(ratios)@
                == old(ratios)@,
        },
{
    let ghost m = settings_of(*fc, ratios@);
    let (a, b) = trim_range(v, lo, hi);
    let ghost line = v@.subrange(a as int, b as int);
    let n = idx + 1;
    if a == b {
        return Ok(());
    }
    let hash: Vec<char> = chars_of("#");
    if crate::text::starts_with_in(v, a, b, &hash) {
        return Ok(());
    }
    let eq: Vec<char> = chars_of("=");
    let i = match find_in(v, a, b, &eq) {
        None => {
            let text = string_of_range(v, a, b);
            return Err(line_message(n, "invalid config line: ", text.as_str()));
        },
        Some(i) => i,
    };
    proof {
        crate::text::lemma_find(line, "="@);
        reveal_strlit("=");
        assert(line.take(i as int) == v@.subrange(a as int, a + i));
        assert(line.skip(i + 1) == v@.subrange(a + i + 1, b as int));
    }
    let (ka, kb) = trim_range(v, a, a + i);
    let (va, vb) = trim_range(v, a + i + 1, b);
    let ghost key = v@.subrange(ka as int, kb as int);
    let ghost val = v@.subrange(va as int, vb as int);
    let value = string_of_range(v, va, vb);
    if range_eq_lit(v, ka, kb, "target") {
        fc.target = Some(value);
        assert(settings_of(*fc, ratios@) =~= SettingsModel { target: Some(val), ..m });
        Ok(())
    } else if range_eq_lit(v, ka, kb, "format") {
        match Format::parse(value.as_str()) {
            Ok(f) => {
                fc.format = Some(f);
                assert(settings_of(*fc, ratios@) =~= SettingsModel { format: Some(f), ..m });
                Ok(())
            },
            Err(e) => Err(line_message(n, "unknown format: ", value.as_str())),
        }
    } else if range_eq_lit(v, ka, kb, "output") {
        fc.output = Some(value);
        assert(settings_of(*fc, ratios@) =~= SettingsModel { output: Some(val), ..m });
        Ok(())
    } else if range_eq_lit(v, ka, kb, "ignore") {
        proof {
            lemma_push_map_values(fc.ignore@, value);
        }
        fc.ignore.push(value);
        assert(settings_of(*fc, ratios@) =~= SettingsModel { ignore: m.ignore.push(val), ..m });
        Ok(())
    } else if range_eq_lit(v, ka, kb, "include-hidden") {
        if range_eq_lit(v, va, vb, "true") {
            fc.include_hidden = Some(true);
            assert(settings_of(*fc, ratios@) =~= SettingsModel { include_hidden: Some(true), ..m });
            Ok(())
        } else if range_eq_lit(v, va, vb, "false") {
            fc.include_hidden = Some(false);
            assert(settings_of(*fc, ratios@) =~= SettingsModel { include_hidden: Some(false), ..m });
            Ok(())
        } else {
            Err(line_message(n, "invalid boolean: ", value.as_str()))
        }
    } else if range_eq_lit(v, ka, kb, "line-mode") {
        match LineMode::parse(value.as_str()) {
            Ok(l) => {
                fc.line_mode = Some(l);
                assert(settings_of(*fc, ratios@) =~= SettingsModel { line_mode: Some(l), ..m });
                Ok(())
            },
            Err(e) => Err(line_message(n, "unknown line-mode: ", value.as_str())),
        }
    } else if range_eq_lit(v, ka, kb, "min-ratio") {
        let entry = RatioLine { line: n, value: value.clone() };
        proof {
            lemma_push_ratio(ratios@, entry);
        }
        ratios.push(entry);
        fc.min_ratio = Some(value);
        assert(settings_of(*fc, ratios@) =~= SettingsModel {
            min_ratio: Some(val),
            ratio_lines: m.ratio_lines.push((n as nat, val)),
            ..m
        });
        Ok(())
    } else if range_eq_lit(v, ka, kb, "max-depth") {
        match parse_usize_in(v, va, vb) {
            Some(d) => {
                fc.max_depth = Some(d);
                assert(settings_of(*fc, ratios@) =~= SettingsModel { max_depth: Some(d), ..m });
                Ok(())
            },
            None => Err(line_message(n, "invalid integer for max-depth: ", value.as_str())),
        }
    } else {
        let k = string_of_range(v, ka, kb);
        Err(concat("unknown configuration key: ", k.as_str()))
    }
}

/// Reads a settings file: one `key = value` per line, `#` comments and
/// blank lines allowed, up to the first line in error.
pub fn parse_config_file(content: &str) -> (r: ConfigParse)
    ensures
        ({
            let (m, err) = apply_lines(lines(content@), 0, empty_settings());
            &&& settings_of(r.config, r.ratio_lines@) == m
            &&& match err {
                Some((line, msg)) => r.error matches Some(e) && e.line == line && e.message@ == msg,
                None => r.error is None,
            }
        }),
{
    let v = chars_of(content);
    let mut fc: FileConfig<String, String> = FileConfig {
        target: None,
        format: None,
        output: None,
        ignore: Vec::new(),
        include_hidden: None,
        line_mode: None,
        min_ratio: None,
        max_depth: None,
    };
    let mut ratios: Vec<RatioLine> = Vec::new();
    proof {
        assert(settings_of(fc, ratios@) =~= empty_settings());
    }
    let mut pos: usize = 0;
    let mut idx: usize = 0;
    while pos < v.len()
        invariant
            v@ == content@,
            pos <= v.len(),
            idx <= pos,
            apply_lines(lines_from(v@, pos as int), idx as nat, settings_of(fc, ratios@))
                == apply_lines(lines(v@), 0, empty_settings()),
        decreases v.len() - pos,
    {
        let j = next_newline_in(&v, pos);
        proof {
            crate::text::lemma_next_newline(v@, pos as int);
            let ls = lines_from(v@, pos as int);
            assert(ls[0] == v@.subrange(pos as int, j as int));
            assert(ls.drop_first() =~= lines_from(v@, j + 1));
        }
        match apply_config_line(&v, pos, j, idx, &mut fc, &mut ratios) {
            Ok(()) => {},
            Err(msg) => {
                return ConfigParse {
                    config: fc,
                    ratio_lines: ratios,
                    error: Some(ConfigError { line: idx, message: msg }),
                };
            },
        }
        assert(apply_lines(lines_from(v@, j + 1), (idx + 1) as nat, settings_of(fc, ratios@))
            == apply_lines(lines(v@), 0, empty_settings()));
        if j == v.len() {
            assert(lines_from(v@, j + 1) =~= Seq::<Seq<char>>::empty());
            assert(apply_lines(lines_from(v@, j + 1), (idx + 1) as nat, settings_of(fc, ratios@))
                == (settings_of(fc, ratios@), None::<(nat, Seq<char>)>));
            return ConfigParse { config: fc, ratio_lines: ratios, error: None };
        }
        pos = j + 1;
        idx = idx + 1;
    }
    assert(lines_from(v@, pos as int) =~= Seq::<Seq<char>>::empty());
    ConfigParse { config: fc, ratio_lines: ratios, error: None }
}


/// The settings given on the command line; `P` is how paths are held and
/// `R` how the hotspot ratio is.
#[derive(Debug, Clone)]
pub struct CliOptions<P, R> {
    pub target: Option<P>,
    pub format: Option<String>,
    pub output: Option<P>,
    pub ignore: Vec<String>,
    pub include_hidden: bool,
    pub line_mode: Option<String>,
    pub min_ratio: Option<R>,
    pub max_depth: Option<usize>,
}

/// The settings of one run.
#[derive(Debug, Clone)]
pub struct Config<P, R> {
    pub target: P,
    pub format: Format,
    pub output: Option<P>,
    pub ignore: Vec<String>,
    pub include_hidden: bool,
    pub line_mode: LineMode,
    pub min_ratio: R,
    pub max_depth: Option<usize>,
}

impl<P, R> Config<P, R> {
    /// The settings of a run given nothing but its target and the ratio
    /// threshold to use: Markdown, no output file, nothing ignored, hidden
    /// paths left out, physical lines, no depth limit.
    pub fn with_defaults(target: P, min_ratio: R) -> (c: Self)
        ensures
            c.target == target,
            c.format == Format::Markdown,
            c.output is None,
            c.ignore@.len() == 0,
            !c.include_hidden,
            c.line_mode == LineMode::Physical,
            c.min_ratio == min_ratio,
            c.max_depth is None,
    {
        Config {
            target,
            format: Format::Markdown,
            output: None,
            ignore: Vec::new(),
            include_hidden: false,
            line_mode: LineMode::Physical,
            min_ratio,
            max_depth: None,
        }
    }
}

/// `a` when it is given, else `b`.
pub open spec fn first_given<T>(a: Option<T>, b: Option<T>) -> Option<T> {
    match a {
        Some(x) => Some(x),
        None => b,
    }
}

pub open spec fn file_target<P, R>(f: Option<FileConfig<P, R>>) -> Option<P> {
    match f {
        Some(c) => c.target,
        None => None,
    }
}

pub open spec fn file_format<P, R>(f: Option<FileConfig<P, R>>) -> Option<Format> {
    match f {
        Some(c) => c.format,
        None => None,
    }
}

pub open spec fn file_output<P, R>(f: Option<FileConfig<P, R>>) -> Option<P> {
    match f {
        Some(c) => c.output,
        None => None,
    }
}

pub open spec fn file_ignore<P, R>(f: Option<FileConfig<P, R>>) -> Seq<String> {
    match f {
        Some(c) => c.ignore@,
        None => Seq::empty(),
    }
}

pub open spec fn file_hidden<P, R>(f: Option<FileConfig<P, R>>) -> Option<bool> {
    match f {
        Some(c) => c.include_hidden,
        None => None,
    }
}

pub open spec fn file_line_mode<P, R>(f: Option<FileConfig<P, R>>) -> Option<LineMode> {
    match f {
        Some(c) => c.line_mode,
        None => None,
    }
}

pub open spec fn file_min_ratio<P, R>(f: Option<FileConfig<P, R>>) -> Option<R> {
    match f {
        Some(c) => c.min_ratio,
        None => None,
    }
}

pub open spec fn file_max_depth<P, R>(f: Option<FileConfig<P, R>>) -> Option<usize> {
    match f {
        Some(c) => c.max_depth,
        None => None,
    }
}

/// The message when no target is given.
pub open spec fn missing_target_message() -> Seq<char> {
    "missing target: specify a directory or file to analyze"@
}

/// The settings of a run from the command line and the settings file: a
/// setting given on the command line wins over the file, which wins over
/// the default; ignore patterns of both are kept, the file's first.
pub fn build_config<P, R>(cli: CliOptions<P, R>, file: Option<FileConfig<P, R>>, default_min_ratio: R) -> (r:
    Result<Config<P, R>, String>)
    ensures
        ({
            let target = first_given(cli.target, file_target(file));
            let bad_format = cli.format matches Some(s) && format_named(s@) is None;
            let bad_mode = cli.line_mode matches Some(s) && line_mode_named(s@) is None;
            match r {
                Err(e) => if target is None {
                    e@ == missing_target_message()
                } else if bad_format {
                    e@ == "unknown format: "@ + cli.format->0@
                } else {
                    bad_mode && e@ == "unknown line-mode: "@ + cli.line_mode->0@
                },
                Ok(c) => {
                    &&& target == Some(c.target)
                    &&& !bad_format && !bad_mode
                    &&& c.format == match cli.format {
                        Some(s) => format_named(s@)->0,
                        None => match file_format(file) {
                            Some(f) => f,
                            None => Format::Markdown,
                        },
                    }
                    &&& c.line_mode == match cli.line_mode {
                        Some(s) => line_mode_named(s@)->0,
                        None => match file_line_mode(file) {
                            Some(m) => m,
                            None => LineMode::Physical,
                        },
                    }
                    &&& c.output == first_given(cli.output, file_output(file))
                    &&& c.ignore@ == file_ignore(file) + cli.ignore@
                    &&& c.include_hidden == (cli.include_hidden || file_hidden(file) == Some(true))
                    &&& Some(c.min_ratio) == first_given(
                        cli.min_ratio,
                        first_given(file_min_ratio(file), Some(default_min_ratio)),
                    )
                    &&& c.max_depth == first_given(cli.max_depth, file_max_depth(file))
                },
            }
        }),
{
    let ghost cli0 = cli;
    let ghost file0 = file;
    let CliOptions {
        target: cli_target,
        format: cli_format,
        output: cli_output,
        ignore: mut cli_ignore,
        include_hidden: cli_hidden,
        line_mode: cli_line_mode,
        min_ratio: cli_min_ratio,
        max_depth: cli_max_depth,
    } = cli;
    let (f_target, f_format, f_output, mut ignore, f_hidden, f_line_mode, f_min_ratio, f_max_depth) =
        match file {
        Some(fc) => (
            fc.target,
            fc.format,
            fc.output,
            fc.ignore,
            fc.include_hidden,
            fc.line_mode,
            fc.min_ratio,
            fc.max_depth,
        ),
        None => (None, None, None, Vec::new(), None, None, None, None),
    };
    let target = match cli_target {
        Some(t) => t,
        None => match f_target {
            Some(t) => t,
            None => {
                return Err(
                    <String as StringExecFns>::from_str(
                        "missing target: specify a directory or file to analyze",
                    ),
                );
            },
        },
    };
    let format = match cli_format {
        Some(s) => match Format::parse(s.as_str()) {
            Ok(f) => f,
            Err(e) => {
                return Err(e);
            },
        },
        None => match f_format {
            Some(f) => f,
            None => Format::Markdown,
        },
    };
    let line_mode = match cli_line_mode {
        Some(s) => match LineMode::parse(s.as_str()) {
            Ok(m) => m,
            Err(e) => {
                return Err(e);
            },
        },
        None => match f_line_mode {
            Some(m) => m,
            None => LineMode::Physical,
        },
    };
    let min_ratio = match cli_min_ratio {
        Some(v) => v,
        None => match f_min_ratio {
            Some(v) => v,
            None => default_min_ratio,
        },
    };
    let max_depth = match cli_max_depth {
        Some(d) => Some(d),
        None => f_max_depth,
    };
    let include_hidden = if cli_hidden {
        true
    } else {
        match f_hidden {
            Some(b) => b,
            None => false,
        }
    };
    let output = match cli_output {
        Some(o) => Some(o),
        None => f_output,
    };
    ignore.append(&mut cli_ignore);
    Ok(Config { target, format, output, ignore, include_hidden, line_mode, min_ratio, max_depth })
}

} // verus!
