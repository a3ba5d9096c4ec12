//! Line counting: physical lines, and source lines that leave out blank
//! lines and comment-only lines for recognised languages.

use vstd::prelude::*;
use vstd::utf8::{
    char_is_scalar, decode_utf8, decode_utf8_encode_utf8, encode_scalar, encode_utf8,
    encode_utf8_decode_utf8, has_width_1_encoding, has_width_2_encoding, has_width_3_encoding,
    leading_byte_width_1, leading_byte_width_2, leading_byte_width_3, leading_byte_width_4,
    last_continuation_byte, second_last_continuation_byte, third_last_continuation_byte, valid_utf8,
};
use crate::config::LineMode;
use crate::text::{
    count_char, lemma_next_newline, next_newline,
    chars_of, find, find_in, lemma_find, lemma_trim_first, lemma_trim_len, lemma_trim_not_blank,
    lines, lines_from, occurs_at, starts_with, trim, trim_range,
};

verus! {

/// The comment delimiters of a language.
pub struct CommentSyntax {
    /// Single-line comment prefix, such as `//` or `#`.
    pub line: Option<Vec<char>>,
    /// Block comment delimiters (open, close), such as `/*` and `*/`.
    pub block: Option<(Vec<char>, Vec<char>)>,
}

/// The comment delimiters as character sequences.
pub struct SyntaxModel {
    pub line: Option<Seq<char>>,
    pub block: Option<(Seq<char>, Seq<char>)>,
}

impl View for CommentSyntax {
    type V = SyntaxModel;

    open spec fn view(&self) -> SyntaxModel {
        SyntaxModel {
            line: match self.line {
                Some(l) => Some(l@),
                None => None,
            },
            block: match self.block {
                Some(b) => Some((b.0@, b.1@)),
                None => None,
            },
        }
    }
}

impl SyntaxModel {
    /// The block-comment opener (meaningful when there is a block syntax).
    pub open spec fn open(self) -> Seq<char> {
        match self.block {
            Some((o, _)) => o,
            None => Seq::empty(),
        }
    }

    /// The block-comment closer (meaningful when there is a block syntax).
    pub open spec fn close(self) -> Seq<char> {
        match self.block {
            Some((_, c)) => c,
            None => Seq::empty(),
        }
    }

    /// Every delimiter is non-empty.
    pub open spec fn wf(self) -> bool {
        &&& (self.line matches Some(l) ==> l.len() > 0)
        &&& (self.block is Some ==> self.open().len() > 0 && self.close().len() > 0)
    }
}

/// The number of bytes of `b` equal to `x`.
pub open spec fn count_byte(b: Seq<u8>, x: u8) -> nat
    decreases b.len(),
{
    if b.len() == 0 {
        0
    } else {
        count_byte(b.drop_last(), x) + if b.last() == x {
            1nat
        } else {
            0nat
        }
    }
}

/// Physical lines: the newlines, plus one for a last line that has no newline.
pub open spec fn physical_lines(b: Seq<u8>) -> nat {
    if b.len() == 0 {
        0
    } else if b.last() == 10u8 {
        count_byte(b, 10u8)
    } else {
        count_byte(b, 10u8) + 1
    }
}

/// How a line reads, given whether a block comment is open where it starts:
/// whether it holds code, and whether a block comment is open at its end.
///
/// Inside a block comment everything up to the closer is comment, and the
/// rest of the line is read by the same rule. Outside one, whitespace is not
/// code; whichever of the line-comment prefix and the block opener comes
/// first decides what follows. Where both begin at the same place, the
/// opener wins when it starts with the prefix (as `--[[` does with `--`).
/// A line comment runs to the end of the line; a block comment opened on the
/// line stays open past it unless it closes; anything else is code.
pub open spec fn classify_line(line: Seq<char>, in_block: bool, syn: SyntaxModel) -> (bool, bool)
    decreases line.len(),
{
    if in_block && syn.block is Some {
        let close = syn.close();
        match find(line, close) {
            Some(pos) => if close.len() > 0 {
                proof {
                    lemma_find(line, close);
                }
                classify_line(line.skip(pos + close.len()), false, syn)
            } else {
                (false, false)
            },
            None => (false, true),
        }
    } else {
        let t = trim(line);
        let lp = match syn.line {
            Some(l) => find(t, l),
            None => None,
        };
        let bp = if syn.block is Some && syn.open().len() > 0 {
            find(t, syn.open())
        } else {
            None
        };
        if t.len() == 0 {
            (false, false)
        } else if bp is Some && (lp is None || bp->0 < lp->0 || (bp->0 == lp->0
            && syn.open().len() >= syn.line->0.len())) {
            let b = bp->0;
            proof {
                lemma_trim_len(line);
                lemma_find(t, syn.open());
            }
            let rest = classify_line(t.skip(b + syn.open().len()), true, syn);
            (trim(t.take(b)).len() > 0 || rest.0, rest.1)
        } else if lp is Some {
            (trim(t.take(lp->0)).len() > 0, false)
        } else {
            (true, false)
        }
    }
}

/// The block opener of `syn` leads `t`: `t` starts with it, and where it
/// also starts with the line-comment prefix, the opener is at least as long
/// (as `--[[` is beside `--`), so the opener wins the tie.
pub open spec fn opener_leads(t: Seq<char>, syn: SyntaxModel) -> bool {
    &&& syn.block is Some
    &&& starts_with(t, syn.open())
    &&& match syn.line {
        Some(l) => starts_with(t, l) ==> syn.open().len() >= l.len(),
        None => true,
    }
}

/// The line-comment prefix of `syn` leads `t` and the opener does not.
pub open spec fn prefix_leads(t: Seq<char>, syn: SyntaxModel) -> bool {
    &&& syn.line matches Some(l) && starts_with(t, l)
    &&& !opener_leads(t, syn)
}

proof fn lemma_find_at_start(t: Seq<char>, p: Seq<char>)
    ensures
        starts_with(t, p) ==> find(t, p) == Some(0int),
        !starts_with(t, p) ==> find(t, p) != Some(0int),
{
    lemma_find(t, p);
    if starts_with(t, p) {
        if let Some(k) = find(t, p) {
            if k > 0 {
                assert(occurs_at(t, p, 0));
            }
        }
    }
}

/// Read from the start of a line outside a block comment, after trimming:
/// blank text holds no code; a leading line comment leaves no code; a
/// leading block opener leaves the text after its closer to decide, and no
/// code when it does not close; text that starts with anything else is code.
/// Where opener and prefix start together, the opener wins when it starts
/// with the prefix.
pub proof fn lemma_leading_comment_scan(s: Seq<char>, syn: SyntaxModel)
    requires
        syn.wf(),
    ensures
        trim(s).len() == 0 ==> !classify_line(s, false, syn).0,
        trim(s).len() > 0 && prefix_leads(trim(s), syn) ==> !classify_line(s, false, syn).0,
        trim(s).len() > 0 && opener_leads(trim(s), syn) ==> classify_line(s, false, syn).0
            == match find(trim(s).skip(syn.open().len() as int), syn.close()) {
            Some(k) => classify_line(
                trim(s).skip(syn.open().len() + k + syn.close().len()),
                false,
                syn,
            ).0,
            None => false,
        },
        trim(s).len() > 0 && !(syn.line matches Some(l) && starts_with(trim(s), l)) && !(
        syn.block is Some && starts_with(trim(s), syn.open())) ==> classify_line(s, false, syn).0,
{
    let t = trim(s);
    if t.len() > 0 {
        lemma_trim_first(s);
        assert(trim(t.take(0)).len() == 0) by {
            assert(t.take(0) =~= Seq::<char>::empty());
        }
        if let Some(l) = syn.line {
            lemma_find_at_start(t, l);
            lemma_find(t, l);
        }
        if syn.block is Some {
            lemma_find_at_start(t, syn.open());
            lemma_find(t, syn.open());
        }
        if opener_leads(t, syn) {
            let o = syn.open().len() as int;
            let rest = t.skip(o);
            assert(find(t, syn.open()) == Some(0int));
            let lp = match syn.line {
                Some(l) => find(t, l),
                None => None,
            };
            assert(lp is None || 0 < lp->0 || (0 == lp->0 && syn.open().len() >= syn.line->0.len()));
            assert(t.skip(0 + o) == rest);
            let inner = classify_line(rest, true, syn);
            assert(classify_line(s, false, syn) == (trim(t.take(0)).len() > 0 || inner.0, inner.1));
            lemma_find(rest, syn.close());
            if let Some(k) = find(rest, syn.close()) {
                assert(rest.skip(k + syn.close().len()) =~= t.skip(o + k + syn.close().len()));
                assert(inner == classify_line(rest.skip(k + syn.close().len()), false, syn));
            } else {
                assert(inner == (false, true));
            }
        } else if !(syn.line matches Some(l) && starts_with(t, l)) && !(syn.block is Some
            && starts_with(t, syn.open())) {
            let lp = match syn.line {
                Some(l) => find(t, l),
                None => None,
            };
            let bp = if syn.block is Some && syn.open().len() > 0 {
                find(t, syn.open())
            } else {
                None
            };
            if let Some(b) = bp {
                assert(t.take(b)[0] == t[0]);
                lemma_trim_not_blank(t.take(b));
            }
            if let Some(lq) = lp {
                assert(t.take(lq)[0] == t[0]);
                lemma_trim_not_blank(t.take(lq));
            }
        }
    }
}

/// The source lines among `ls`, starting with the given block state.
pub open spec fn sloc_lines(ls: Seq<Seq<char>>, in_block: bool, syn: SyntaxModel) -> nat
    decreases ls.len(),
{
    if ls.len() == 0 {
        0
    } else {
        let (counted, next) = classify_line(ls[0], in_block, syn);
        (if counted {
            1nat
        } else {
            0nat
        }) + sloc_lines(ls.drop_first(), next, syn)
    }
}

/// The lines of `ls` that are not blank.
pub open spec fn nonblank_lines(ls: Seq<Seq<char>>) -> nat
    decreases ls.len(),
{
    if ls.len() == 0 {
        0
    } else {
        (if trim(ls[0]).len() > 0 {
            1nat
        } else {
            0nat
        }) + nonblank_lines(ls.drop_first())
    }
}

pub fn count_physical(content: &[u8]) -> (r: usize)
    ensures
        r == physical_lines(content@),
{
    let mut newlines: usize = 0;
    let mut i: usize = 0;
    while i < content.len()
        invariant
            i <= content.len(),
            newlines == count_byte(content@.take(i as int), 10u8),
            newlines <= i,
        decreases content.len() - i,
    {
        assert(content@.take(i + 1).drop_last() =~= content@.take(i as int));
        if content[i] == 10u8 {
            newlines = newlines + 1;
        }
        i = i + 1;
    }
    assert(content@.take(i as int) =~= content@);
    if content.len() == 0 {
        return 0;
    }
    if content[content.len() - 1] == 10u8 {
        newlines
    } else {
        assert(newlines < content.len()) by {
            lemma_count_byte_last(content@, 10u8);
        }
        newlines + 1
    }
}

impl CommentSyntax {
    pub open spec fn wf(&self) -> bool {
        self@.wf()
    }
}

proof fn lemma_skip_subrange(s: Seq<char>, lo: int, hi: int, k: int)
    requires
        0 <= lo <= hi <= s.len(),
        0 <= k <= hi - lo,
    ensures
        s.subrange(lo, hi).skip(k) == s.subrange(lo + k, hi),
        s.subrange(lo, hi).take(k) == s.subrange(lo, lo + k),
{
    assert(s.subrange(lo, hi).skip(k) =~= s.subrange(lo + k, hi));
    assert(s.subrange(lo, hi).take(k) =~= s.subrange(lo, lo + k));
}

/// The index of the first newline at or after `i` in `v`, or `v.len()`.
pub fn next_newline_in(v: &Vec<char>, i: usize) -> (r: usize)
    requires
        i <= v.len(),
    ensures
        r == crate::text::next_newline(v@, i as int),
{
    let mut j = i;
    while j < v.len() && v[j] != '\n'
        invariant
            i <= j <= v.len(),
            crate::text::next_newline(v@, i as int) == crate::text::next_newline(v@, j as int),
        decreases v.len() - j,
    {
        j = j + 1;
    }
    j
}

/// `classify_line(v[lo..hi], in_block, syn)`.
pub fn classify_in(v: &Vec<char>, lo: usize, hi: usize, in_block: bool, syn: &CommentSyntax) -> (r: (
    bool,
    bool,
))
    requires
        lo <= hi <= v.len(),
        syn.wf(),
    ensures
        r == classify_line(v@.subrange(lo as int, hi as int), in_block, syn@),
    decreases hi - lo,
{
    let ghost line = v@.subrange(lo as int, hi as int);
    if in_block {
        if let Some(blk) = &syn.block {
            let close = &blk.1;
            assert(syn@.close() == close@);
            match find_in(v, lo, hi, close) {
                Some(pos) => {
                    proof {
                        lemma_find(line, close@);
                        lemma_skip_subrange(v@, lo as int, hi as int, pos + close.len());
                    }
                    return classify_in(v, lo + pos + close.len(), hi, false, syn);
                },
                None => {
                    return (false, true);
                },
            }
        }
    }
    let (a, b) = trim_range(v, lo, hi);
    let ghost t = v@.subrange(a as int, b as int);
    assert(trim(line) == t);
    if a == b {
        return (false, false);
    }
    let lp = match &syn.line {
        Some(l) => find_in(v, a, b, l),
        None => None,
    };
    let bp = match &syn.block {
        Some(blk) => find_in(v, a, b, &blk.0),
        None => None,
    };
    let open_len = match &syn.block {
        Some(blk) => blk.0.len(),
        None => 0,
    };
    let prefix_len = match &syn.line {
        Some(l) => l.len(),
        None => 0,
    };
    let block_first = match (bp, lp) {
        (Some(o), Some(l)) => o < l || (o == l && open_len >= prefix_len),
        (Some(_), None) => true,
        _ => false,
    };
    if block_first {
        let o = bp.unwrap();
        proof {
            lemma_find(t, syn@.open());
            lemma_skip_subrange(v@, a as int, b as int, o as int);
            lemma_skip_subrange(v@, a as int, b as int, o + open_len);
        }
        let (c, d) = trim_range(v, a, a + o);
        let (code, open_after) = classify_in(v, a + o + open_len, b, true, syn);
        return (c < d || code, open_after);
    }
    match lp {
        Some(l) => {
            proof {
                lemma_find(t, syn@.line->0);
                lemma_skip_subrange(v@, a as int, b as int, l as int);
            }
            let (c, d) = trim_range(v, a, a + l);
            (c < d, false)
        },
        None => (true, false),
    }
}

/// The source lines of `v` under the comment syntax `syn`.
pub fn sloc_chars(v: &Vec<char>, syn: &CommentSyntax) -> (r: usize)
    requires
        syn.wf(),
    ensures
        r == sloc_lines(lines(v@), false, syn@),
{
    let mut pos: usize = 0;
    let mut count: usize = 0;
    let mut in_block = false;
    while pos < v.len()
        invariant
            pos <= v.len(),
            count <= pos,
            syn.wf(),
            count + sloc_lines(lines_from(v@, pos as int), in_block, syn@) == sloc_lines(
                lines(v@),
                false,
                syn@,
            ),
        decreases v.len() - pos,
    {
        let j = next_newline_in(v, pos);
        proof {
            crate::text::lemma_next_newline(v@, pos as int);
            let ls = lines_from(v@, pos as int);
            assert(ls[0] == v@.subrange(pos as int, j as int));
            assert(ls.drop_first() =~= lines_from(v@, j + 1));
        }
        let (counted, next) = classify_in(v, pos, j, in_block, syn);
        if counted {
            count = count + 1;
        }
        in_block = next;
        assert(count + sloc_lines(lines_from(v@, j + 1), in_block, syn@) == sloc_lines(
            lines(v@),
            false,
            syn@,
        ));
        if j == v.len() {
            assert(lines_from(v@, j + 1) =~= Seq::<Seq<char>>::empty());
            assert(sloc_lines(lines_from(v@, j + 1), in_block, syn@) == 0);
            return count;
        }
        pos = j + 1;
    }
    assert(lines_from(v@, pos as int) =~= Seq::<Seq<char>>::empty());
    count
}

/// The lines of `v` that are not blank.
pub fn nonblank_chars(v: &Vec<char>) -> (r: usize)
    ensures
        r == nonblank_lines(lines(v@)),
{
    let mut pos: usize = 0;
    let mut count: usize = 0;
    while pos < v.len()
        invariant
            pos <= v.len(),
            count <= pos,
            count + nonblank_lines(lines_from(v@, pos as int)) == nonblank_lines(lines(v@)),
        decreases v.len() - pos,
    {
        let j = next_newline_in(v, pos);
        proof {
            crate::text::lemma_next_newline(v@, pos as int);
            let ls = lines_from(v@, pos as int);
            assert(ls[0] == v@.subrange(pos as int, j as int));
            assert(ls.drop_first() =~= lines_from(v@, j + 1));
        }
        let (a, b) = trim_range(v, pos, j);
        if a < b {
            count = count + 1;
        }
        assert(count + nonblank_lines(lines_from(v@, j + 1)) == nonblank_lines(lines(v@)));
        if j == v.len() {
            assert(lines_from(v@, j + 1) =~= Seq::<Seq<char>>::empty());
            assert(nonblank_lines(lines_from(v@, j + 1)) == 0);
            return count;
        }
        pos = j + 1;
    }
    assert(lines_from(v@, pos as int) =~= Seq::<Seq<char>>::empty());
    count
}

/// The comment syntax of the language with file extension `ext`, when it is
/// a recognised one.
pub open spec fn syntax_for(ext: Seq<char>) -> Option<SyntaxModel> {
    if ext == "rs"@ || ext == "c"@ || ext == "cpp"@ || ext == "cc"@ || ext == "cxx"@ || ext == "h"@ || ext == "hpp"@ || ext == "java"@ || ext == "js"@ || ext == "jsx"@ || ext == "ts"@ || ext == "tsx"@ || ext == "cs"@ || ext == "go"@ || ext == "swift"@ || ext == "kt"@ || ext == "kts"@ || ext == "scala"@ || ext == "dart"@ || ext == "groovy"@ || ext == "gradle"@ {
        Some(SyntaxModel { line: Some("//"@), block: Some(("/*"@, "*/"@)) })
    } else if ext == "css"@ || ext == "scss"@ || ext == "sass"@ || ext == "less"@ {
        Some(SyntaxModel { line: None, block: Some(("/*"@, "*/"@)) })
    } else if ext == "py"@ || ext == "rb"@ || ext == "sh"@ || ext == "bash"@ || ext == "zsh"@ || ext == "fish"@ || ext == "pl"@ || ext == "r"@ || ext == "R"@ || ext == "yml"@ || ext == "yaml"@ || ext == "toml"@ || ext == "conf"@ || ext == "ini"@ || ext == "tf"@ || ext == "hcl"@ || ext == "ex"@ || ext == "exs"@ {
        Some(SyntaxModel { line: Some("#"@), block: None })
    } else if ext == "lua"@ {
        Some(SyntaxModel { line: Some("--"@), block: Some(("--[["@, "]]"@)) })
    } else if ext == "sql"@ {
        Some(SyntaxModel { line: Some("--"@), block: Some(("/*"@, "*/"@)) })
    } else if ext == "hs"@ || ext == "lhs"@ {
        Some(SyntaxModel { line: Some("--"@), block: Some(("{-"@, "-}"@)) })
    } else if ext == "erl"@ || ext == "hrl"@ {
        Some(SyntaxModel { line: Some("%"@), block: None })
    } else if ext == "ml"@ || ext == "mli"@ {
        Some(SyntaxModel { line: None, block: Some(("(*"@, "*)"@)) })
    } else if ext == "vim"@ {
        Some(SyntaxModel { line: Some("\""@), block: None })
    } else if ext == "html"@ || ext == "htm"@ || ext == "xml"@ || ext == "svg"@ || ext == "md"@ || ext == "markdown"@ {
        Some(SyntaxModel { line: None, block: Some(("<!--"@, "-->"@)) })
    } else {
        None
    }
}

/// The comment syntax of each recognised extension is its language's: the
/// C family (`rs`, `js`, `ts`, `java`, `go` and the rest) has `//` and
/// `/* */`; style sheets `/* */` only; shells, Python, Ruby, R, YAML, TOML
/// and the like `#`; Lua `--` and `--[[ ]]`; SQL `--` and `/* */`; Haskell
/// `--` and `{- -}`; Erlang `%`; OCaml `(* *)`; Vim script `"`; and markup
/// `<!-- -->`.
#[verifier::rlimit(50)]
pub proof fn lemma_syntax_table(e: Seq<char>)
    ensures
        (e == "rs"@ || e == "c"@ || e == "cpp"@ || e == "cc"@ || e == "cxx"@ || e == "h"@ || e == "hpp"@ || e == "java"@ || e == "js"@ || e == "jsx"@ || e == "ts"@ || e == "tsx"@ || e == "cs"@ || e == "go"@ || e == "swift"@ || e == "kt"@ || e == "kts"@ || e == "scala"@ || e == "dart"@ || e == "groovy"@ || e == "gradle"@) ==> syntax_for(e) == Some(SyntaxModel { line: Some("//"@), block: Some(("/*"@, "*/"@)) }),
        (e == "css"@ || e == "scss"@ || e == "sass"@ || e == "less"@) ==> syntax_for(e) == Some(SyntaxModel { line: None, block: Some(("/*"@, "*/"@)) }),
        (e == "py"@ || e == "rb"@ || e == "sh"@ || e == "bash"@ || e == "zsh"@ || e == "fish"@ || e == "pl"@ || e == "r"@ || e == "R"@ || e == "yml"@ || e == "yaml"@ || e == "toml"@ || e == "conf"@ || e == "ini"@ || e == "tf"@ || e == "hcl"@ || e == "ex"@ || e == "exs"@) ==> syntax_for(e) == Some(SyntaxModel { line: Some("#"@), block: None }),
        (e == "lua"@) ==> syntax_for(e) == Some(SyntaxModel { line: Some("--"@), block: Some(("--[["@, "]]"@)) }),
        (e == "sql"@) ==> syntax_for(e) == Some(SyntaxModel { line: Some("--"@), block: Some(("/*"@, "*/"@)) }),
        (e == "hs"@ || e == "lhs"@) ==> syntax_for(e) == Some(SyntaxModel { line: Some("--"@), block: Some(("{-"@, "-}"@)) }),
        (e == "erl"@ || e == "hrl"@) ==> syntax_for(e) == Some(SyntaxModel { line: Some("%"@), block: None }),
        (e == "ml"@ || e == "mli"@) ==> syntax_for(e) == Some(SyntaxModel { line: None, block: Some(("(*"@, "*)"@)) }),
        (e == "vim"@) ==> syntax_for(e) == Some(SyntaxModel { line: Some("\""@), block: None }),
        (e == "html"@ || e == "htm"@ || e == "xml"@ || e == "svg"@ || e == "md"@ || e == "markdown"@) ==> syntax_for(e) == Some(SyntaxModel { line: None, block: Some(("<!--"@, "-->"@)) }),
{
    reveal_strlit("rs");
    reveal_strlit("c");
    reveal_strlit("cpp");
    reveal_strlit("cc");
    reveal_strlit("cxx");
    reveal_strlit("h");
    reveal_strlit("hpp");
    reveal_strlit("java");
    reveal_strlit("js");
    reveal_strlit("jsx");
    reveal_strlit("ts");
    reveal_strlit("tsx");
    reveal_strlit("cs");
    reveal_strlit("go");
    reveal_strlit("swift");
    reveal_strlit("kt");
    reveal_strlit("kts");
    reveal_strlit("scala");
    reveal_strlit("dart");
    reveal_strlit("groovy");
    reveal_strlit("gradle");
    reveal_strlit("css");
    reveal_strlit("scss");
    reveal_strlit("sass");
    reveal_strlit("less");
    reveal_strlit("py");
    reveal_strlit("rb");
    reveal_strlit("sh");
    reveal_strlit("bash");
    reveal_strlit("zsh");
    reveal_strlit("fish");
    reveal_strlit("pl");
    reveal_strlit("r");
    reveal_strlit("R");
    reveal_strlit("yml");
    reveal_strlit("yaml");
    reveal_strlit("toml");
    reveal_strlit("conf");
    reveal_strlit("ini");
    reveal_strlit("tf");
    reveal_strlit("hcl");
    reveal_strlit("ex");
    reveal_strlit("exs");
    reveal_strlit("lua");
    reveal_strlit("sql");
    reveal_strlit("hs");
    reveal_strlit("lhs");
    reveal_strlit("erl");
    reveal_strlit("hrl");
    reveal_strlit("ml");
    reveal_strlit("mli");
    reveal_strlit("vim");
    reveal_strlit("html");
    reveal_strlit("htm");
    reveal_strlit("xml");
    reveal_strlit("svg");
    reveal_strlit("md");
    reveal_strlit("markdown");
    if e == "rs"@ {
        assert(syntax_for(e) == Some(SyntaxModel { line: Some("//"@), block: Some(("/*"@, "*/"@)) }));
    }
    if e == "c"@ {
        assert(syntax_for(e) == Some(SyntaxModel { line: Some("//"@), block: Some(("/*"@, "*/"@)) }));
    }
    if e == "cpp"@ {
        assert(syntax_for(e) == Some(SyntaxModel { line: Some("//"@), block: Some(("/*"@, "*/"@)) }));
    }
    if e == "cc"@ {
        assert(syntax_for(e) == Some(SyntaxModel { line: Some("//"@), block: Some(("/*"@, "*/"@)) }));
    }
    if e == "cxx"@ {
        assert(syntax_for(e) == Some(SyntaxModel { line: Some("//"@), block: Some(("/*"@, "*/"@)) }));
    }
    if e == "h"@ {
        assert(syntax_for(e) == Some(SyntaxModel { line: Some("//"@), block: Some(("/*"@, "*/"@)) }));
    }
    if e == "hpp"@ {
        assert(syntax_for(e) == Some(SyntaxModel { line: Some("//"@), block: Some(("/*"@, "*/"@)) }));
    }
    if e == "java"@ {
        assert(syntax_for(e) == Some(SyntaxModel { line: Some("//"@), block: Some(("/*"@, "*/"@)) }));
    }
    if e == "js"@ {
        assert(syntax_for(e) == Some(SyntaxModel { line: Some("//"@), block: Some(("/*"@, "*/"@)) }));
    }
    if e == "jsx"@ {
        assert(syntax_for(e) == Some(SyntaxModel { line: Some("//"@), block: Some(("/*"@, "*/"@)) }));
    }
    if e == "ts"@ {
        assert(syntax_for(e) == Some(SyntaxModel { line: Some("//"@), block: Some(("/*"@, "*/"@)) }));
    }
    if e == "tsx"@ {
        assert(syntax_for(e) == Some(SyntaxModel { line: Some("//"@), block: Some(("/*"@, "*/"@)) }));
    }
    if e == "cs"@ {
        assert(syntax_for(e) == Some(SyntaxModel { line: Some("//"@), block: Some(("/*"@, "*/"@)) }));
    }
    if e == "go"@ {
        assert(syntax_for(e) == Some(SyntaxModel { line: Some("//"@), block: Some(("/*"@, "*/"@)) }));
    }
    if e == "swift"@ {
        assert(syntax_for(e) == Some(SyntaxModel { line: Some("//"@), block: Some(("/*"@, "*/"@)) }));
    }
    if e == "kt"@ {
        assert(syntax_for(e) == Some(SyntaxModel { line: Some("//"@), block: Some(("/*"@, "*/"@)) }));
    }
    if e == "kts"@ {
        assert(syntax_for(e) == Some(SyntaxModel { line: Some("//"@), block: Some(("/*"@, "*/"@)) }));
    }
    if e == "scala"@ {
        assert(syntax_for(e) == Some(SyntaxModel { line: Some("//"@), block: Some(("/*"@, "*/"@)) }));
    }
    if e == "dart"@ {
        assert(syntax_for(e) == Some(SyntaxModel { line: Some("//"@), block: Some(("/*"@, "*/"@)) }));
    }
    if e == "groovy"@ {
        assert(syntax_for(e) == Some(SyntaxModel { line: Some("//"@), block: Some(("/*"@, "*/"@)) }));
    }
    if e == "gradle"@ {
        assert(syntax_for(e) == Some(SyntaxModel { line: Some("//"@), block: Some(("/*"@, "*/"@)) }));
    }
    if e == "css"@ {
        assert("css"@.len() != "rs"@.len());
        assert("css"@.len() != "c"@.len());
        assert("css"@[1] != "cpp"@[1]);
        assert("css"@.len() != "cc"@.len());
        assert("css"@[1] != "cxx"@[1]);
        assert("css"@.len() != "h"@.len());
        assert("css"@[0] != "hpp"@[0]);
        assert("css"@.len() != "java"@.len());
        assert("css"@.len() != "js"@.len());
        assert("css"@[0] != "jsx"@[0]);
        assert("css"@.len() != "ts"@.len());
        assert("css"@[0] != "tsx"@[0]);
        assert("css"@.len() != "cs"@.len());
        assert("css"@.len() != "go"@.len());
        assert("css"@.len() != "swift"@.len());
        assert("css"@.len() != "kt"@.len());
        assert("css"@[0] != "kts"@[0]);
        assert("css"@.len() != "scala"@.len());
        assert("css"@.len() != "dart"@.len());
        assert("css"@.len() != "groovy"@.len());
        assert("css"@.len() != "gradle"@.len());
        assert(syntax_for(e) == Some(SyntaxModel { line: None, block: Some(("/*"@, "*/"@)) }));
    }
    if e == "scss"@ {
        assert("scss"@.len() != "rs"@.len());
        assert("scss"@.len() != "c"@.len());
        assert("scss"@.len() != "cpp"@.len());
        assert("scss"@.len() != "cc"@.len());
        assert("scss"@.len() != "cxx"@.len());
        assert("scss"@.len() != "h"@.len());
        assert("scss"@.len() != "hpp"@.len());
        assert("scss"@[0] != "java"@[0]);
        assert("scss"@.len() != "js"@.len());
        assert("scss"@.len() != "jsx"@.len());
        assert("scss"@.len() != "ts"@.len());
        assert("scss"@.len() != "tsx"@.len());
        assert("scss"@.len() != "cs"@.len());
        assert("scss"@.len() != "go"@.len());
        assert("scss"@.len() != "swift"@.len());
        assert("scss"@.len() != "kt"@.len());
        assert("scss"@.len() != "kts"@.len());
        assert("scss"@.len() != "scala"@.len());
        assert("scss"@[0] != "dart"@[0]);
        assert("scss"@.len() != "groovy"@.len());
        assert("scss"@.len() != "gradle"@.len());
        assert(syntax_for(e) == Some(SyntaxModel { line: None, block: Some(("/*"@, "*/"@)) }));
    }
    if e == "sass"@ {
        assert("sass"@.len() != "rs"@.len());
        assert("sass"@.len() != "c"@.len());
        assert("sass"@.len() != "cpp"@.len());
        assert("sass"@.len() != "cc"@.len());
        assert("sass"@.len() != "cxx"@.len());
        assert("sass"@.len() != "h"@.len());
        assert("sass"@.len() != "hpp"@.len());
        assert("sass"@[0] != "java"@[0]);
        assert("sass"@.len() != "js"@.len());
        assert("sass"@.len() != "jsx"@.len());
        assert("sass"@.len() != "ts"@.len());
        assert("sass"@.len() != "tsx"@.len());
        assert("sass"@.len() != "cs"@.len());
        assert("sass"@.len() != "go"@.len());
        assert("sass"@.len() != "swift"@.len());
        assert("sass"@.len() != "kt"@.len());
        assert("sass"@.len() != "kts"@.len());
        assert("sass"@.len() != "scala"@.len());
        assert("sass"@[0] != "dart"@[0]);
        assert("sass"@.len() != "groovy"@.len());
        assert("sass"@.len() != "gradle"@.len());
        assert(syntax_for(e) == Some(SyntaxModel { line: None, block: Some(("/*"@, "*/"@)) }));
    }
    if e == "less"@ {
        assert("less"@.len() != "rs"@.len());
        assert("less"@.len() != "c"@.len());
        assert("less"@.len() != "cpp"@.len());
        assert("less"@.len() != "cc"@.len());
        assert("less"@.len() != "cxx"@.len());
        assert("less"@.len() != "h"@.len());
        assert("less"@.len() != "hpp"@.len());
        assert("less"@[0] != "java"@[0]);
        assert("less"@.len() != "js"@.len());
        assert("less"@.len() != "jsx"@.len());
        assert("less"@.len() != "ts"@.len());
        assert("less"@.len() != "tsx"@.len());
        assert("less"@.len() != "cs"@.len());
        assert("less"@.len() != "go"@.len());
        assert("less"@.len() != "swift"@.len());
        assert("less"@.len() != "kt"@.len());
        assert("less"@.len() != "kts"@.len());
        assert("less"@.len() != "scala"@.len());
        assert("less"@[0] != "dart"@[0]);
        assert("less"@.len() != "groovy"@.len());
        assert("less"@.len() != "gradle"@.len());
        assert(syntax_for(e) == Some(SyntaxModel { line: None, block: Some(("/*"@, "*/"@)) }));
    }
    if e == "py"@ {
        assert("py"@[0] != "rs"@[0]);
        assert("py"@.len() != "c"@.len());
        assert("py"@.len() != "cpp"@.len());
        assert("py"@[0] != "cc"@[0]);
        assert("py"@.len() != "cxx"@.len());
        assert("py"@.len() != "h"@.len());
        assert("py"@.len() != "hpp"@.len());
        assert("py"@.len() != "java"@.len());
        assert("py"@[0] != "js"@[0]);
        assert("py"@.len() != "jsx"@.len());
        assert("py"@[0] != "ts"@[0]);
        assert("py"@.len() != "tsx"@.len());
        assert("py"@[0] != "cs"@[0]);
        assert("py"@[0] != "go"@[0]);
        assert("py"@.len() != "swift"@.len());
        assert("py"@[0] != "kt"@[0]);
        assert("py"@.len() != "kts"@.len());
        assert("py"@.len() != "scala"@.len());
        assert("py"@.len() != "dart"@.len());
        assert("py"@.len() != "groovy"@.len());
        assert("py"@.len() != "gradle"@.len());
        assert("py"@.len() != "css"@.len());
        assert("py"@.len() != "scss"@.len());
        assert("py"@.len() != "sass"@.len());
        assert("py"@.len() != "less"@.len());
        assert(syntax_for(e) == Some(SyntaxModel { line: Some("#"@), block: None }));
    }
    if e == "rb"@ {
        assert("rb"@[1] != "rs"@[1]);
        assert("rb"@.len() != "c"@.len());
        assert("rb"@.len() != "cpp"@.len());
        assert("rb"@[0] != "cc"@[0]);
        assert("rb"@.len() != "cxx"@.len());
        assert("rb"@.len() != "h"@.len());
        assert("rb"@.len() != "hpp"@.len());
        assert("rb"@.len() != "java"@.len());
        assert("rb"@[0] != "js"@[0]);
        assert("rb"@.len() != "jsx"@.len());
        assert("rb"@[0] != "ts"@[0]);
        assert("rb"@.len() != "tsx"@.len());
        assert("rb"@[0] != "cs"@[0]);
        assert("rb"@[0] != "go"@[0]);
        assert("rb"@.len() != "swift"@.len());
        assert("rb"@[0] != "kt"@[0]);
        assert("rb"@.len() != "kts"@.len());
        assert("rb"@.len() != "scala"@.len());
        assert("rb"@.len() != "dart"@.len());
        assert("rb"@.len() != "groovy"@.len());
        assert("rb"@.len() != "gradle"@.len());
        assert("rb"@.len() != "css"@.len());
        assert("rb"@.len() != "scss"@.len());
        assert("rb"@.len() != "sass"@.len());
        assert("rb"@.len() != "less"@.len());
        assert(syntax_for(e) == Some(SyntaxModel { line: Some("#"@), block: None }));
    }
    if e == "sh"@ {
        assert("sh"@[0] != "rs"@[0]);
        assert("sh"@.len() != "c"@.len());
        assert("sh"@.len() != "cpp"@.len());
        assert("sh"@[0] != "cc"@[0]);
        assert("sh"@.len() != "cxx"@.len());
        assert("sh"@.len() != "h"@.len());
        assert("sh"@.len() != "hpp"@.len());
        assert("sh"@.len() != "java"@.len());
        assert("sh"@[0] != "js"@[0]);
        assert("sh"@.len() != "jsx"@.len());
        assert("sh"@[0] != "ts"@[0]);
        assert("sh"@.len() != "tsx"@.len());
        assert("sh"@[0] != "cs"@[0]);
        assert("sh"@[0] != "go"@[0]);
        assert("sh"@.len() != "swift"@.len());
        assert("sh"@[0] != "kt"@[0]);
        assert("sh"@.len() != "kts"@.len());
        assert("sh"@.len() != "scala"@.len());
        assert("sh"@.len() != "dart"@.len());
        assert("sh"@.len() != "groovy"@.len());
        assert("sh"@.len() != "gradle"@.len());
        assert("sh"@.len() != "css"@.len());
        assert("sh"@.len() != "scss"@.len());
        assert("sh"@.len() != "sass"@.len());
        assert("sh"@.len() != "less"@.len());
        assert(syntax_for(e) == Some(SyntaxModel { line: Some("#"@), block: None }));
    }
    if e == "bash"@ {
        assert("bash"@.len() != "rs"@.len());
        assert("bash"@.len() != "c"@.len());
        assert("bash"@.len() != "cpp"@.len());
        assert("bash"@.len() != "cc"@.len());
        assert("bash"@.len() != "cxx"@.len());
        assert("bash"@.len() != "h"@.len());
        assert("bash"@.len() != "hpp"@.len());
        assert("bash"@[0] != "java"@[0]);
        assert("bash"@.len() != "js"@.len());
        assert("bash"@.len() != "jsx"@.len());
        assert("bash"@.len() != "ts"@.len());
        assert("bash"@.len() != "tsx"@.len());
        assert("bash"@.len() != "cs"@.len());
        assert("bash"@.len() != "go"@.len());
        assert("bash"@.len() != "swift"@.len());
        assert("bash"@.len() != "kt"@.len());
        assert("bash"@.len() != "kts"@.len());
        assert("bash"@.len() != "scala"@.len());
        assert("bash"@[0] != "dart"@[0]);
        assert("bash"@.len() != "groovy"@.len());
        assert("bash"@.len() != "gradle"@.len());
        assert("bash"@.len() != "css"@.len());
        assert("bash"@[0] != "scss"@[0]);
        assert("bash"@[0] != "sass"@[0]);
        assert("bash"@[0] != "less"@[0]);
        assert(syntax_for(e) == Some(SyntaxModel { line: Some("#"@), block: None }));
    }
    if e == "zsh"@ {
        assert("zsh"@.len() != "rs"@.len());
        assert("zsh"@.len() != "c"@.len());
        assert("zsh"@[0] != "cpp"@[0]);
        assert("zsh"@.len() != "cc"@.len());
        assert("zsh"@[0] != "cxx"@[0]);
        assert("zsh"@.len() != "h"@.len());
        assert("zsh"@[0] != "hpp"@[0]);
        assert("zsh"@.len() != "java"@.len());
        assert("zsh"@.len() != "js"@.len());
        assert("zsh"@[0] != "jsx"@[0]);
        assert("zsh"@.len() != "ts"@.len());
        assert("zsh"@[0] != "tsx"@[0]);
        assert("zsh"@.len() != "cs"@.len());
        assert("zsh"@.len() != "go"@.len());
        assert("zsh"@.len() != "swift"@.len());
        assert("zsh"@.len() != "kt"@.len());
        assert("zsh"@[0] != "kts"@[0]);
        assert("zsh"@.len() != "scala"@.len());
        assert("zsh"@.len() != "dart"@.len());
        assert("zsh"@.len() != "groovy"@.len());
        assert("zsh"@.len() != "gradle"@.len());
        assert("zsh"@[0] != "css"@[0]);
        assert("zsh"@.len() != "scss"@.len());
        assert("zsh"@.len() != "sass"@.len());
        assert("zsh"@.len() != "less"@.len());
        assert(syntax_for(e) == Some(SyntaxModel { line: Some("#"@), block: None }));
    }
    if e == "fish"@ {
        assert("fish"@.len() != "rs"@.len());
        assert("fish"@.len() != "c"@.len());
        assert("fish"@.len() != "cpp"@.len());
        assert("fish"@.len() != "cc"@.len());
        assert("fish"@.len() != "cxx"@.len());
        assert("fish"@.len() != "h"@.len());
        assert("fish"@.len() != "hpp"@.len());
        assert("fish"@[0] != "java"@[0]);
        assert("fish"@.len() != "js"@.len());
        assert("fish"@.len() != "jsx"@.len());
        assert("fish"@.len() != "ts"@.len());
        assert("fish"@.len() != "tsx"@.len());
        assert("fish"@.len() != "cs"@.len());
        assert("fish"@.len() != "go"@.len());
        assert("fish"@.len() != "swift"@.len());
        assert("fish"@.len() != "kt"@.len());
        assert("fish"@.len() != "kts"@.len());
        assert("fish"@.len() != "scala"@.len());
        assert("fish"@[0] != "dart"@[0]);
        assert("fish"@.len() != "groovy"@.len());
        assert("fish"@.len() != "gradle"@.len());
        assert("fish"@.len() != "css"@.len());
        assert("fish"@[0] != "scss"@[0]);
        assert("fish"@[0] != "sass"@[0]);
        assert("fish"@[0] != "less"@[0]);
        assert(syntax_for(e) == Some(SyntaxModel { line: Some("#"@), block: None }));
    }
    if e == "pl"@ {
        assert("pl"@[0] != "rs"@[0]);
        assert("pl"@.len() != "c"@.len());
        assert("pl"@.len() != "cpp"@.len());
        assert("pl"@[0] != "cc"@[0]);
        assert("pl"@.len() != "cxx"@.len());
        assert("pl"@.len() != "h"@.len());
        assert("pl"@.len() != "hpp"@.len());
        assert("pl"@.len() != "java"@.len());
        assert("pl"@[0] != "js"@[0]);
        assert("pl"@.len() != "jsx"@.len());
        assert("pl"@[0] != "ts"@[0]);
        assert("pl"@.len() != "tsx"@.len());
        assert("pl"@[0] != "cs"@[0]);
        assert("pl"@[0] != "go"@[0]);
        assert("pl"@.len() != "swift"@.len());
        assert("pl"@[0] != "kt"@[0]);
        assert("pl"@.len() != "kts"@.len());
        assert("pl"@.len() != "scala"@.len());
        assert("pl"@.len() != "dart"@.len());
        assert("pl"@.len() != "groovy"@.len());
        assert("pl"@.len() != "gradle"@.len());
        assert("pl"@.len() != "css"@.len());
        assert("pl"@.len() != "scss"@.len());
        assert("pl"@.len() != "sass"@.len());
        assert("pl"@.len() != "less"@.len());
        assert(syntax_for(e) == Some(SyntaxModel { line: Some("#"@), block: None }));
    }
    if e == "r"@ {
        assert("r"@.len() != "rs"@.len());
        assert("r"@[0] != "c"@[0]);
        assert("r"@.len() != "cpp"@.len());
        assert("r"@.len() != "cc"@.len());
        assert("r"@.len() != "cxx"@.len());
        assert("r"@[0] != "h"@[0]);
        assert("r"@.len() != "hpp"@.len());
        assert("r"@.len() != "java"@.len());
        assert("r"@.len() != "js"@.len());
        assert("r"@.len() != "jsx"@.len());
        assert("r"@.len() != "ts"@.len());
        assert("r"@.len() != "tsx"@.len());
        assert("r"@.len() != "cs"@.len());
        assert("r"@.len() != "go"@.len());
        assert("r"@.len() != "swift"@.len());
        assert("r"@.len() != "kt"@.len());
        assert("r"@.len() != "kts"@.len());
        assert("r"@.len() != "scala"@.len());
        assert("r"@.len() != "dart"@.len());
        assert("r"@.len() != "groovy"@.len());
        assert("r"@.len() != "gradle"@.len());
        assert("r"@.len() != "css"@.len());
        assert("r"@.len() != "scss"@.len());
        assert("r"@.len() != "sass"@.len());
        assert("r"@.len() != "less"@.len());
        assert(syntax_for(e) == Some(SyntaxModel { line: Some("#"@), block: None }));
    }
    if e == "R"@ {
        assert("R"@.len() != "rs"@.len());
        assert("R"@[0] != "c"@[0]);
        assert("R"@.len() != "cpp"@.len());
        assert("R"@.len() != "cc"@.len());
        assert("R"@.len() != "cxx"@.len());
        assert("R"@[0] != "h"@[0]);
        assert("R"@.len() != "hpp"@.len());
        assert("R"@.len() != "java"@.len());
        assert("R"@.len() != "js"@.len());
        assert("R"@.len() != "jsx"@.len());
        assert("R"@.len() != "ts"@.len());
        assert("R"@.len() != "tsx"@.len());
        assert("R"@.len() != "cs"@.len());
        assert("R"@.len() != "go"@.len());
        assert("R"@.len() != "swift"@.len());
        assert("R"@.len() != "kt"@.len());
        assert("R"@.len() != "kts"@.len());
        assert("R"@.len() != "scala"@.len());
        assert("R"@.len() != "dart"@.len());
        assert("R"@.len() != "groovy"@.len());
        assert("R"@.len() != "gradle"@.len());
        assert("R"@.len() != "css"@.len());
        assert("R"@.len() != "scss"@.len());
        assert("R"@.len() != "sass"@.len());
        assert("R"@.len() != "less"@.len());
        assert(syntax_for(e) == Some(SyntaxModel { line: Some("#"@), block: None }));
    }
    if e == "yml"@ {
        assert("yml"@.len() != "rs"@.len());
        assert("yml"@.len() != "c"@.len());
        assert("yml"@[0] != "cpp"@[0]);
        assert("yml"@.len() != "cc"@.len());
        assert("yml"@[0] != "cxx"@[0]);
        assert("yml"@.len() != "h"@.len());
        assert("yml"@[0] != "hpp"@[0]);
        assert("yml"@.len() != "java"@.len());
        assert("yml"@.len() != "js"@.len());
        assert("yml"@[0] != "jsx"@[0]);
        assert("yml"@.len() != "ts"@.len());
        assert("yml"@[0] != "tsx"@[0]);
        assert("yml"@.len() != "cs"@.len());
        assert("yml"@.len() != "go"@.len());
        assert("yml"@.len() != "swift"@.len());
        assert("yml"@.len() != "kt"@.len());
        assert("yml"@[0] != "kts"@[0]);
        assert("yml"@.len() != "scala"@.len());
        assert("yml"@.len() != "dart"@.len());
        assert("yml"@.len() != "groovy"@.len());
        assert("yml"@.len() != "gradle"@.len());
        assert("yml"@[0] != "css"@[0]);
        assert("yml"@.len() != "scss"@.len());
        assert("yml"@.len() != "sass"@.len());
        assert("yml"@.len() != "less"@.len());
        assert(syntax_for(e) == Some(SyntaxModel { line: Some("#"@), block: None }));
    }
    if e == "yaml"@ {
        assert("yaml"@.len() != "rs"@.len());
        assert("yaml"@.len() != "c"@.len());
        assert("yaml"@.len() != "cpp"@.len());
        assert("yaml"@.len() != "cc"@.len());
        assert("yaml"@.len() != "cxx"@.len());
        assert("yaml"@.len() != "h"@.len());
        assert("yaml"@.len() != "hpp"@.len());
        assert("yaml"@[0] != "java"@[0]);
        assert("yaml"@.len() != "js"@.len());
        assert("yaml"@.len() != "jsx"@.len());
        assert("yaml"@.len() != "ts"@.len());
        assert("yaml"@.len() != "tsx"@.len());
        assert("yaml"@.len() != "cs"@.len());
        assert("yaml"@.len() != "go"@.len());
        assert("yaml"@.len() != "swift"@.len());
        assert("yaml"@.len() != "kt"@.len());
        assert("yaml"@.len() != "kts"@.len());
        assert("yaml"@.len() != "scala"@.len());
        assert("yaml"@[0] != "dart"@[0]);
        assert("yaml"@.len() != "groovy"@.len());
        assert("yaml"@.len() != "gradle"@.len());
        assert("yaml"@.len() != "css"@.len());
        assert("yaml"@[0] != "scss"@[0]);
        assert("yaml"@[0] != "sass"@[0]);
        assert("yaml"@[0] != "less"@[0]);
        assert(syntax_for(e) == Some(SyntaxModel { line: Some("#"@), block: None }));
    }
    if e == "toml"@ {
        assert("toml"@.len() != "rs"@.len());
        assert("toml"@.len() != "c"@.len());
        assert("toml"@.len() != "cpp"@.len());
        assert("toml"@.len() != "cc"@.len());
        assert("toml"@.len() != "cxx"@.len());
        assert("toml"@.len() != "h"@.len());
        assert("toml"@.len() != "hpp"@.len());
        assert("toml"@[0] != "java"@[0]);
        assert("toml"@.len() != "js"@.len());
        assert("toml"@.len() != "jsx"@.len());
        assert("toml"@.len() != "ts"@.len());
        assert("toml"@.len() != "tsx"@.len());
        assert("toml"@.len() != "cs"@.len());
        assert("toml"@.len() != "go"@.len());
        assert("toml"@.len() != "swift"@.len());
        assert("toml"@.len() != "kt"@.len());
        assert("toml"@.len() != "kts"@.len());
        assert("toml"@.len() != "scala"@.len());
        assert("toml"@[0] != "dart"@[0]);
        assert("toml"@.len() != "groovy"@.len());
        assert("toml"@.len() != "gradle"@.len());
        assert("toml"@.len() != "css"@.len());
        assert("toml"@[0] != "scss"@[0]);
        assert("toml"@[0] != "sass"@[0]);
        assert("toml"@[0] != "less"@[0]);
        assert(syntax_for(e) == Some(SyntaxModel { line: Some("#"@), block: None }));
    }
    if e == "conf"@ {
        assert("conf"@.len() != "rs"@.len());
        assert("conf"@.len() != "c"@.len());
        assert("conf"@.len() != "cpp"@.len());
        assert("conf"@.len() != "cc"@.len());
        assert("conf"@.len() != "cxx"@.len());
        assert("conf"@.len() != "h"@.len());
        assert("conf"@.len() != "hpp"@.len());
        assert("conf"@[0] != "java"@[0]);
        assert("conf"@.len() != "js"@.len());
        assert("conf"@.len() != "jsx"@.len());
        assert("conf"@.len() != "ts"@.len());
        assert("conf"@.len() != "tsx"@.len());
        assert("conf"@.len() != "cs"@.len());
        assert("conf"@.len() != "go"@.len());
        assert("conf"@.len() != "swift"@.len());
        assert("conf"@.len() != "kt"@.len());
        assert("conf"@.len() != "kts"@.len());
        assert("conf"@.len() != "scala"@.len());
        assert("conf"@[0] != "dart"@[0]);
        assert("conf"@.len() != "groovy"@.len());
        assert("conf"@.len() != "gradle"@.len());
        assert("conf"@.len() != "css"@.len());
        assert("conf"@[0] != "scss"@[0]);
        assert("conf"@[0] != "sass"@[0]);
        assert("conf"@[0] != "less"@[0]);
        assert(syntax_for(e) == Some(SyntaxModel { line: Some("#"@), block: None }));
    }
    if e == "ini"@ {
        assert("ini"@.len() != "rs"@.len());
        assert("ini"@.len() != "c"@.len());
        assert("ini"@[0] != "cpp"@[0]);
        assert("ini"@.len() != "cc"@.len());
        assert("ini"@[0] != "cxx"@[0]);
        assert("ini"@.len() != "h"@.len());
        assert("ini"@[0] != "hpp"@[0]);
        assert("ini"@.len() != "java"@.len());
        assert("ini"@.len() != "js"@.len());
        assert("ini"@[0] != "jsx"@[0]);
        assert("ini"@.len() != "ts"@.len());
        assert("ini"@[0] != "tsx"@[0]);
        assert("ini"@.len() != "cs"@.len());
        assert("ini"@.len() != "go"@.len());
        assert("ini"@.len() != "swift"@.len());
        assert("ini"@.len() != "kt"@.len());
        assert("ini"@[0] != "kts"@[0]);
        assert("ini"@.len() != "scala"@.len());
        assert("ini"@.len() != "dart"@.len());
        assert("ini"@.len() != "groovy"@.len());
        assert("ini"@.len() != "gradle"@.len());
        assert("ini"@[0] != "css"@[0]);
        assert("ini"@.len() != "scss"@.len());
        assert("ini"@.len() != "sass"@.len());
        assert("ini"@.len() != "less"@.len());
        assert(syntax_for(e) == Some(SyntaxModel { line: Some("#"@), block: None }));
    }
    if e == "tf"@ {
        assert("tf"@[0] != "rs"@[0]);
        assert("tf"@.len() != "c"@.len());
        assert("tf"@.len() != "cpp"@.len());
        assert("tf"@[0] != "cc"@[0]);
        assert("tf"@.len() != "cxx"@.len());
        assert("tf"@.len() != "h"@.len());
        assert("tf"@.len() != "hpp"@.len());
        assert("tf"@.len() != "java"@.len());
        assert("tf"@[0] != "js"@[0]);
        assert("tf"@.len() != "jsx"@.len());
        assert("tf"@[1] != "ts"@[1]);
        assert("tf"@.len() != "tsx"@.len());
        assert("tf"@[0] != "cs"@[0]);
        assert("tf"@[0] != "go"@[0]);
        assert("tf"@.len() != "swift"@.len());
        assert("tf"@[0] != "kt"@[0]);
        assert("tf"@.len() != "kts"@.len());
        assert("tf"@.len() != "scala"@.len());
        assert("tf"@.len() != "dart"@.len());
        assert("tf"@.len() != "groovy"@.len());
        assert("tf"@.len() != "gradle"@.len());
        assert("tf"@.len() != "css"@.len());
        assert("tf"@.len() != "scss"@.len());
        assert("tf"@.len() != "sass"@.len());
        assert("tf"@.len() != "less"@.len());
        assert(syntax_for(e) == Some(SyntaxModel { line: Some("#"@), block: None }));
    }
    if e == "hcl"@ {
        assert("hcl"@.len() != "rs"@.len());
        assert("hcl"@.len() != "c"@.len());
        assert("hcl"@[0] != "cpp"@[0]);
        assert("hcl"@.len() != "cc"@.len());
        assert("hcl"@[0] != "cxx"@[0]);
        assert("hcl"@.len() != "h"@.len());
        assert("hcl"@[1] != "hpp"@[1]);
        assert("hcl"@.len() != "java"@.len());
        assert("hcl"@.len() != "js"@.len());
        assert("hcl"@[0] != "jsx"@[0]);
        assert("hcl"@.len() != "ts"@.len());
        assert("hcl"@[0] != "tsx"@[0]);
        assert("hcl"@.len() != "cs"@.len());
        assert("hcl"@.len() != "go"@.len());
        assert("hcl"@.len() != "swift"@.len());
        assert("hcl"@.len() != "kt"@.len());
        assert("hcl"@[0] != "kts"@[0]);
        assert("hcl"@.len() != "scala"@.len());
        assert("hcl"@.len() != "dart"@.len());
        assert("hcl"@.len() != "groovy"@.len());
        assert("hcl"@.len() != "gradle"@.len());
        assert("hcl"@[0] != "css"@[0]);
        assert("hcl"@.len() != "scss"@.len());
        assert("hcl"@.len() != "sass"@.len());
        assert("hcl"@.len() != "less"@.len());
        assert(syntax_for(e) == Some(SyntaxModel { line: Some("#"@), block: None }));
    }
    if e == "ex"@ {
        assert("ex"@[0] != "rs"@[0]);
        assert("ex"@.len() != "c"@.len());
        assert("ex"@.len() != "cpp"@.len());
        assert("ex"@[0] != "cc"@[0]);
        assert("ex"@.len() != "cxx"@.len());
        assert("ex"@.len() != "h"@.len());
        assert("ex"@.len() != "hpp"@.len());
        assert("ex"@.len() != "java"@.len());
        assert("ex"@[0] != "js"@[0]);
        assert("ex"@.len() != "jsx"@.len());
        assert("ex"@[0] != "ts"@[0]);
        assert("ex"@.len() != "tsx"@.len());
        assert("ex"@[0] != "cs"@[0]);
        assert("ex"@[0] != "go"@[0]);
        assert("ex"@.len() != "swift"@.len());
        assert("ex"@[0] != "kt"@[0]);
        assert("ex"@.len() != "kts"@.len());
        assert("ex"@.len() != "scala"@.len());
        assert("ex"@.len() != "dart"@.len());
        assert("ex"@.len() != "groovy"@.len());
        assert("ex"@.len() != "gradle"@.len());
        assert("ex"@.len() != "css"@.len());
        assert("ex"@.len() != "scss"@.len());
        assert("ex"@.len() != "sass"@.len());
        assert("ex"@.len() != "less"@.len());
        assert(syntax_for(e) == Some(SyntaxModel { line: Some("#"@), block: None }));
    }
    if e == "exs"@ {
        assert("exs"@.len() != "rs"@.len());
        assert("exs"@.len() != "c"@.len());
        assert("exs"@[0] != "cpp"@[0]);
        assert("exs"@.len() != "cc"@.len());
        assert("exs"@[0] != "cxx"@[0]);
        assert("exs"@.len() != "h"@.len());
        assert("exs"@[0] != "hpp"@[0]);
        assert("exs"@.len() != "java"@.len());
        assert("exs"@.len() != "js"@.len());
        assert("exs"@[0] != "jsx"@[0]);
        assert("exs"@.len() != "ts"@.len());
        assert("exs"@[0] != "tsx"@[0]);
        assert("exs"@.len() != "cs"@.len());
        assert("exs"@.len() != "go"@.len());
        assert("exs"@.len() != "swift"@.len());
        assert("exs"@.len() != "kt"@.len());
        assert("exs"@[0] != "kts"@[0]);
        assert("exs"@.len() != "scala"@.len());
        assert("exs"@.len() != "dart"@.len());
        assert("exs"@.len() != "groovy"@.len());
        assert("exs"@.len() != "gradle"@.len());
        assert("exs"@[0] != "css"@[0]);
        assert("exs"@.len() != "scss"@.len());
        assert("exs"@.len() != "sass"@.len());
        assert("exs"@.len() != "less"@.len());
        assert(syntax_for(e) == Some(SyntaxModel { line: Some("#"@), block: None }));
    }
    if e == "lua"@ {
        assert("lua"@.len() != "rs"@.len());
        assert("lua"@.len() != "c"@.len());
        assert("lua"@[0] != "cpp"@[0]);
        assert("lua"@.len() != "cc"@.len());
        assert("lua"@[0] != "cxx"@[0]);
        assert("lua"@.len() != "h"@.len());
        assert("lua"@[0] != "hpp"@[0]);
        assert("lua"@.len() != "java"@.len());
        assert("lua"@.len() != "js"@.len());
        assert("lua"@[0] != "jsx"@[0]);
        assert("lua"@.len() != "ts"@.len());
        assert("lua"@[0] != "tsx"@[0]);
        assert("lua"@.len() != "cs"@.len());
        assert("lua"@.len() != "go"@.len());
        assert("lua"@.len() != "swift"@.len());
        assert("lua"@.len() != "kt"@.len());
        assert("lua"@[0] != "kts"@[0]);
        assert("lua"@.len() != "scala"@.len());
        assert("lua"@.len() != "dart"@.len());
        assert("lua"@.len() != "groovy"@.len());
        assert("lua"@.len() != "gradle"@.len());
        assert("lua"@[0] != "css"@[0]);
        assert("lua"@.len() != "scss"@.len());
        assert("lua"@.len() != "sass"@.len());
        assert("lua"@.len() != "less"@.len());
        assert("lua"@.len() != "py"@.len());
        assert("lua"@.len() != "rb"@.len());
        assert("lua"@.len() != "sh"@.len());
        assert("lua"@.len() != "bash"@.len());
        assert("lua"@[0] != "zsh"@[0]);
        assert("lua"@.len() != "fish"@.len());
        assert("lua"@.len() != "pl"@.len());
        assert("lua"@.len() != "r"@.len());
        assert("lua"@.len() != "R"@.len());
        assert("lua"@[0] != "yml"@[0]);
        assert("lua"@.len() != "yaml"@.len());
        assert("lua"@.len() != "toml"@.len());
        assert("lua"@.len() != "conf"@.len());
        assert("lua"@[0] != "ini"@[0]);
        assert("lua"@.len() != "tf"@.len());
        assert("lua"@[0] != "hcl"@[0]);
        assert("lua"@.len() != "ex"@.len());
        assert("lua"@[0] != "exs"@[0]);
        assert(syntax_for(e) == Some(SyntaxModel { line: Some("--"@), block: Some(("--[["@, "]]"@)) }));
    }
    if e == "sql"@ {
        assert("sql"@.len() != "rs"@.len());
        assert("sql"@.len() != "c"@.len());
        assert("sql"@[0] != "cpp"@[0]);
        assert("sql"@.len() != "cc"@.len());
        assert("sql"@[0] != "cxx"@[0]);
        assert("sql"@.len() != "h"@.len());
        assert("sql"@[0] != "hpp"@[0]);
        assert("sql"@.len() != "java"@.len());
        assert("sql"@.len() != "js"@.len());
        assert("sql"@[0] != "jsx"@[0]);
        assert("sql"@.len() != "ts"@.len());
        assert("sql"@[0] != "tsx"@[0]);
        assert("sql"@.len() != "cs"@.len());
        assert("sql"@.len() != "go"@.len());
        assert("sql"@.len() != "swift"@.len());
        assert("sql"@.len() != "kt"@.len());
        assert("sql"@[0] != "kts"@[0]);
        assert("sql"@.len() != "scala"@.len());
        assert("sql"@.len() != "dart"@.len());
        assert("sql"@.len() != "groovy"@.len());
        assert("sql"@.len() != "gradle"@.len());
        assert("sql"@[0] != "css"@[0]);
        assert("sql"@.len() != "scss"@.len());
        assert("sql"@.len() != "sass"@.len());
        assert("sql"@.len() != "less"@.len());
        assert("sql"@.len() != "py"@.len());
        assert("sql"@.len() != "rb"@.len());
        assert("sql"@.len() != "sh"@.len());
        assert("sql"@.len() != "bash"@.len());
        assert("sql"@[0] != "zsh"@[0]);
        assert("sql"@.len() != "fish"@.len());
        assert("sql"@.len() != "pl"@.len());
        assert("sql"@.len() != "r"@.len());
        assert("sql"@.len() != "R"@.len());
        assert("sql"@[0] != "yml"@[0]);
        assert("sql"@.len() != "yaml"@.len());
        assert("sql"@.len() != "toml"@.len());
        assert("sql"@.len() != "conf"@.len());
        assert("sql"@[0] != "ini"@[0]);
        assert("sql"@.len() != "tf"@.len());
        assert("sql"@[0] != "hcl"@[0]);
        assert("sql"@.len() != "ex"@.len());
        assert("sql"@[0] != "exs"@[0]);
        assert("sql"@[0] != "lua"@[0]);
        assert(syntax_for(e) == Some(SyntaxModel { line: Some("--"@), block: Some(("/*"@, "*/"@)) }));
    }
    if e == "hs"@ {
        assert("hs"@[0] != "rs"@[0]);
        assert("hs"@.len() != "c"@.len());
        assert("hs"@.len() != "cpp"@.len());
        assert("hs"@[0] != "cc"@[0]);
        assert("hs"@.len() != "cxx"@.len());
        assert("hs"@.len() != "h"@.len());
        assert("hs"@.len() != "hpp"@.len());
        assert("hs"@.len() != "java"@.len());
        assert("hs"@[0] != "js"@[0]);
        assert("hs"@.len() != "jsx"@.len());
        assert("hs"@[0] != "ts"@[0]);
        assert("hs"@.len() != "tsx"@.len());
        assert("hs"@[0] != "cs"@[0]);
        assert("hs"@[0] != "go"@[0]);
        assert("hs"@.len() != "swift"@.len());
        assert("hs"@[0] != "kt"@[0]);
        assert("hs"@.len() != "kts"@.len());
        assert("hs"@.len() != "scala"@.len());
        assert("hs"@.len() != "dart"@.len());
        assert("hs"@.len() != "groovy"@.len());
        assert("hs"@.len() != "gradle"@.len());
        assert("hs"@.len() != "css"@.len());
        assert("hs"@.len() != "scss"@.len());
        assert("hs"@.len() != "sass"@.len());
        assert("hs"@.len() != "less"@.len());
        assert("hs"@[0] != "py"@[0]);
        assert("hs"@[0] != "rb"@[0]);
        assert("hs"@[0] != "sh"@[0]);
        assert("hs"@.len() != "bash"@.len());
        assert("hs"@.len() != "zsh"@.len());
        assert("hs"@.len() != "fish"@.len());
        assert("hs"@[0] != "pl"@[0]);
        assert("hs"@.len() != "r"@.len());
        assert("hs"@.len() != "R"@.len());
        assert("hs"@.len() != "yml"@.len());
        assert("hs"@.len() != "yaml"@.len());
        assert("hs"@.len() != "toml"@.len());
        assert("hs"@.len() != "conf"@.len());
        assert("hs"@.len() != "ini"@.len());
        assert("hs"@[0] != "tf"@[0]);
        assert("hs"@.len() != "hcl"@.len());
        assert("hs"@[0] != "ex"@[0]);
        assert("hs"@.len() != "exs"@.len());
        assert("hs"@.len() != "lua"@.len());
        assert("hs"@.len() != "sql"@.len());
        assert(syntax_for(e) == Some(SyntaxModel { line: Some("--"@), block: Some(("{-"@, "-}"@)) }));
    }
    if e == "lhs"@ {
        assert("lhs"@.len() != "rs"@.len());
        assert("lhs"@.len() != "c"@.len());
        assert("lhs"@[0] != "cpp"@[0]);
        assert("lhs"@.len() != "cc"@.len());
        assert("lhs"@[0] != "cxx"@[0]);
        assert("lhs"@.len() != "h"@.len());
        assert("lhs"@[0] != "hpp"@[0]);
        assert("lhs"@.len() != "java"@.len());
        assert("lhs"@.len() != "js"@.len());
        assert("lhs"@[0] != "jsx"@[0]);
        assert("lhs"@.len() != "ts"@.len());
        assert("lhs"@[0] != "tsx"@[0]);
        assert("lhs"@.len() != "cs"@.len());
        assert("lhs"@.len() != "go"@.len());
        assert("lhs"@.len() != "swift"@.len());
        assert("lhs"@.len() != "kt"@.len());
        assert("lhs"@[0] != "kts"@[0]);
        assert("lhs"@.len() != "scala"@.len());
        assert("lhs"@.len() != "dart"@.len());
        assert("lhs"@.len() != "groovy"@.len());
        assert("lhs"@.len() != "gradle"@.len());
        assert("lhs"@[0] != "css"@[0]);
        assert("lhs"@.len() != "scss"@.len());
        assert("lhs"@.len() != "sass"@.len());
        assert("lhs"@.len() != "less"@.len());
        assert("lhs"@.len() != "py"@.len());
        assert("lhs"@.len() != "rb"@.len());
        assert("lhs"@.len() != "sh"@.len());
        assert("lhs"@.len() != "bash"@.len());
        assert("lhs"@[0] != "zsh"@[0]);
        assert("lhs"@.len() != "fish"@.len());
        assert("lhs"@.len() != "pl"@.len());
        assert("lhs"@.len() != "r"@.len());
        assert("lhs"@.len() != "R"@.len());
        assert("lhs"@[0] != "yml"@[0]);
        assert("lhs"@.len() != "yaml"@.len());
        assert("lhs"@.len() != "toml"@.len());
        assert("lhs"@.len() != "conf"@.len());
        assert("lhs"@[0] != "ini"@[0]);
        assert("lhs"@.len() != "tf"@.len());
        assert("lhs"@[0] != "hcl"@[0]);
        assert("lhs"@.len() != "ex"@.len());
        assert("lhs"@[0] != "exs"@[0]);
        assert("lhs"@[1] != "lua"@[1]);
        assert("lhs"@[0] != "sql"@[0]);
        assert(syntax_for(e) == Some(SyntaxModel { line: Some("--"@), block: Some(("{-"@, "-}"@)) }));
    }
    if e == "erl"@ {
        assert("erl"@.len() != "rs"@.len());
        assert("erl"@.len() != "c"@.len());
        assert("erl"@[0] != "cpp"@[0]);
        assert("erl"@.len() != "cc"@.len());
        assert("erl"@[0] != "cxx"@[0]);
        assert("erl"@.len() != "h"@.len());
        assert("erl"@[0] != "hpp"@[0]);
        assert("erl"@.len() != "java"@.len());
        assert("erl"@.len() != "js"@.len());
        assert("erl"@[0] != "jsx"@[0]);
        assert("erl"@.len() != "ts"@.len());
        assert("erl"@[0] != "tsx"@[0]);
        assert("erl"@.len() != "cs"@.len());
        assert("erl"@.len() != "go"@.len());
        assert("erl"@.len() != "swift"@.len());
        assert("erl"@.len() != "kt"@.len());
        assert("erl"@[0] != "kts"@[0]);
        assert("erl"@.len() != "scala"@.len());
        assert("erl"@.len() != "dart"@.len());
        assert("erl"@.len() != "groovy"@.len());
        assert("erl"@.len() != "gradle"@.len());
        assert("erl"@[0] != "css"@[0]);
        assert("erl"@.len() != "scss"@.len());
        assert("erl"@.len() != "sass"@.len());
        assert("erl"@.len() != "less"@.len());
        assert("erl"@.len() != "py"@.len());
        assert("erl"@.len() != "rb"@.len());
        assert("erl"@.len() != "sh"@.len());
        assert("erl"@.len() != "bash"@.len());
        assert("erl"@[0] != "zsh"@[0]);
        assert("erl"@.len() != "fish"@.len());
        assert("erl"@.len() != "pl"@.len());
        assert("erl"@.len() != "r"@.len());
        assert("erl"@.len() != "R"@.len());
        assert("erl"@[0] != "yml"@[0]);
        assert("erl"@.len() != "yaml"@.len());
        assert("erl"@.len() != "toml"@.len());
        assert("erl"@.len() != "conf"@.len());
        assert("erl"@[0] != "ini"@[0]);
        assert("erl"@.len() != "tf"@.len());
        assert("erl"@[0] != "hcl"@[0]);
        assert("erl"@.len() != "ex"@.len());
        assert("erl"@[1] != "exs"@[1]);
        assert("erl"@[0] != "lua"@[0]);
        assert("erl"@[0] != "sql"@[0]);
        assert("erl"@.len() != "hs"@.len());
        assert("erl"@[0] != "lhs"@[0]);
        assert(syntax_for(e) == Some(SyntaxModel { line: Some("%"@), block: None }));
    }
    if e == "hrl"@ {
        assert("hrl"@.len() != "rs"@.len());
        assert("hrl"@.len() != "c"@.len());
        assert("hrl"@[0] != "cpp"@[0]);
        assert("hrl"@.len() != "cc"@.len());
        assert("hrl"@[0] != "cxx"@[0]);
        assert("hrl"@.len() != "h"@.len());
        assert("hrl"@[1] != "hpp"@[1]);
        assert("hrl"@.len() != "java"@.len());
        assert("hrl"@.len() != "js"@.len());
        assert("hrl"@[0] != "jsx"@[0]);
        assert("hrl"@.len() != "ts"@.len());
        assert("hrl"@[0] != "tsx"@[0]);
        assert("hrl"@.len() != "cs"@.len());
        assert("hrl"@.len() != "go"@.len());
        assert("hrl"@.len() != "swift"@.len());
        assert("hrl"@.len() != "kt"@.len());
        assert("hrl"@[0] != "kts"@[0]);
        assert("hrl"@.len() != "scala"@.len());
        assert("hrl"@.len() != "dart"@.len());
        assert("hrl"@.len() != "groovy"@.len());
        assert("hrl"@.len() != "gradle"@.len());
        assert("hrl"@[0] != "css"@[0]);
        assert("hrl"@.len() != "scss"@.len());
        assert("hrl"@.len() != "sass"@.len());
        assert("hrl"@.len() != "less"@.len());
        assert("hrl"@.len() != "py"@.len());
        assert("hrl"@.len() != "rb"@.len());
        assert("hrl"@.len() != "sh"@.len());
        assert("hrl"@.len() != "bash"@.len());
        assert("hrl"@[0] != "zsh"@[0]);
        assert("hrl"@.len() != "fish"@.len());
        assert("hrl"@.len() != "pl"@.len());
        assert("hrl"@.len() != "r"@.len());
        assert("hrl"@.len() != "R"@.len());
        assert("hrl"@[0] != "yml"@[0]);
        assert("hrl"@.len() != "yaml"@.len());
        assert("hrl"@.len() != "toml"@.len());
        assert("hrl"@.len() != "conf"@.len());
        assert("hrl"@[0] != "ini"@[0]);
        assert("hrl"@.len() != "tf"@.len());
        assert("hrl"@[1] != "hcl"@[1]);
        assert("hrl"@.len() != "ex"@.len());
        assert("hrl"@[0] != "exs"@[0]);
        assert("hrl"@[0] != "lua"@[0]);
        assert("hrl"@[0] != "sql"@[0]);
        assert("hrl"@.len() != "hs"@.len());
        assert("hrl"@[0] != "lhs"@[0]);
        assert(syntax_for(e) == Some(SyntaxModel { line: Some("%"@), block: None }));
    }
    if e == "ml"@ {
        assert("ml"@[0] != "rs"@[0]);
        assert("ml"@.len() != "c"@.len());
        assert("ml"@.len() != "cpp"@.len());
        assert("ml"@[0] != "cc"@[0]);
        assert("ml"@.len() != "cxx"@.len());
        assert("ml"@.len() != "h"@.len());
        assert("ml"@.len() != "hpp"@.len());
        assert("ml"@.len() != "java"@.len());
        assert("ml"@[0] != "js"@[0]);
        assert("ml"@.len() != "jsx"@.len());
        assert("ml"@[0] != "ts"@[0]);
        assert("ml"@.len() != "tsx"@.len());
        assert("ml"@[0] != "cs"@[0]);
        assert("ml"@[0] != "go"@[0]);
        assert("ml"@.len() != "swift"@.len());
        assert("ml"@[0] != "kt"@[0]);
        assert("ml"@.len() != "kts"@.len());
        assert("ml"@.len() != "scala"@.len());
        assert("ml"@.len() != "dart"@.len());
        assert("ml"@.len() != "groovy"@.len());
        assert("ml"@.len() != "gradle"@.len());
        assert("ml"@.len() != "css"@.len());
        assert("ml"@.len() != "scss"@.len());
        assert("ml"@.len() != "sass"@.len());
        assert("ml"@.len() != "less"@.len());
        assert("ml"@[0] != "py"@[0]);
        assert("ml"@[0] != "rb"@[0]);
        assert("ml"@[0] != "sh"@[0]);
        assert("ml"@.len() != "bash"@.len());
        assert("ml"@.len() != "zsh"@.len());
        assert("ml"@.len() != "fish"@.len());
        assert("ml"@[0] != "pl"@[0]);
        assert("ml"@.len() != "r"@.len());
        assert("ml"@.len() != "R"@.len());
        assert("ml"@.len() != "yml"@.len());
        assert("ml"@.len() != "yaml"@.len());
        assert("ml"@.len() != "toml"@.len());
        assert("ml"@.len() != "conf"@.len());
        assert("ml"@.len() != "ini"@.len());
        assert("ml"@[0] != "tf"@[0]);
        assert("ml"@.len() != "hcl"@.len());
        assert("ml"@[0] != "ex"@[0]);
        assert("ml"@.len() != "exs"@.len());
        assert("ml"@.len() != "lua"@.len());
        assert("ml"@.len() != "sql"@.len());
        assert("ml"@[0] != "hs"@[0]);
        assert("ml"@.len() != "lhs"@.len());
        assert("ml"@.len() != "erl"@.len());
        assert("ml"@.len() != "hrl"@.len());
        assert(syntax_for(e) == Some(SyntaxModel { line: None, block: Some(("(*"@, "*)"@)) }));
    }
    if e == "mli"@ {
        assert("mli"@.len() != "rs"@.len());
        assert("mli"@.len() != "c"@.len());
        assert("mli"@[0] != "cpp"@[0]);
        assert("mli"@.len() != "cc"@.len());
        assert("mli"@[0] != "cxx"@[0]);
        assert("mli"@.len() != "h"@.len());
        assert("mli"@[0] != "hpp"@[0]);
        assert("mli"@.len() != "java"@.len());
        assert("mli"@.len() != "js"@.len());
        assert("mli"@[0] != "jsx"@[0]);
        assert("mli"@.len() != "ts"@.len());
        assert("mli"@[0] != "tsx"@[0]);
        assert("mli"@.len() != "cs"@.len());
        assert("mli"@.len() != "go"@.len());
        assert("mli"@.len() != "swift"@.len());
        assert("mli"@.len() != "kt"@.len());
        assert("mli"@[0] != "kts"@[0]);
        assert("mli"@.len() != "scala"@.len());
        assert("mli"@.len() != "dart"@.len());
        assert("mli"@.len() != "groovy"@.len());
        assert("mli"@.len() != "gradle"@.len());
        assert("mli"@[0] != "css"@[0]);
        assert("mli"@.len() != "scss"@.len());
        assert("mli"@.len() != "sass"@.len());
        assert("mli"@.len() != "less"@.len());
        assert("mli"@.len() != "py"@.len());
        assert("mli"@.len() != "rb"@.len());
        assert("mli"@.len() != "sh"@.len());
        assert("mli"@.len() != "bash"@.len());
        assert("mli"@[0] != "zsh"@[0]);
        assert("mli"@.len() != "fish"@.len());
        assert("mli"@.len() != "pl"@.len());
        assert("mli"@.len() != "r"@.len());
        assert("mli"@.len() != "R"@.len());
        assert("mli"@[0] != "yml"@[0]);
        assert("mli"@.len() != "yaml"@.len());
        assert("mli"@.len() != "toml"@.len());
        assert("mli"@.len() != "conf"@.len());
        assert("mli"@[0] != "ini"@[0]);
        assert("mli"@.len() != "tf"@.len());
        assert("mli"@[0] != "hcl"@[0]);
        assert("mli"@.len() != "ex"@.len());
        assert("mli"@[0] != "exs"@[0]);
        assert("mli"@[0] != "lua"@[0]);
        assert("mli"@[0] != "sql"@[0]);
        assert("mli"@.len() != "hs"@.len());
        assert("mli"@[0] != "lhs"@[0]);
        assert("mli"@[0] != "erl"@[0]);
        assert("mli"@[0] != "hrl"@[0]);
        assert(syntax_for(e) == Some(SyntaxModel { line: None, block: Some(("(*"@, "*)"@)) }));
    }
    if e == "vim"@ {
        assert("vim"@.len() != "rs"@.len());
        assert("vim"@.len() != "c"@.len());
        assert("vim"@[0] != "cpp"@[0]);
        assert("vim"@.len() != "cc"@.len());
        assert("vim"@[0] != "cxx"@[0]);
        assert("vim"@.len() != "h"@.len());
        assert("vim"@[0] != "hpp"@[0]);
        assert("vim"@.len() != "java"@.len());
        assert("vim"@.len() != "js"@.len());
        assert("vim"@[0] != "jsx"@[0]);
        assert("vim"@.len() != "ts"@.len());
        assert("vim"@[0] != "tsx"@[0]);
        assert("vim"@.len() != "cs"@.len());
        assert("vim"@.len() != "go"@.len());
        assert("vim"@.len() != "swift"@.len());
        assert("vim"@.len() != "kt"@.len());
        assert("vim"@[0] != "kts"@[0]);
        assert("vim"@.len() != "scala"@.len());
        assert("vim"@.len() != "dart"@.len());
        assert("vim"@.len() != "groovy"@.len());
        assert("vim"@.len() != "gradle"@.len());
        assert("vim"@[0] != "css"@[0]);
        assert("vim"@.len() != "scss"@.len());
        assert("vim"@.len() != "sass"@.len());
        assert("vim"@.len() != "less"@.len());
        assert("vim"@.len() != "py"@.len());
        assert("vim"@.len() != "rb"@.len());
        assert("vim"@.len() != "sh"@.len());
        assert("vim"@.len() != "bash"@.len());
        assert("vim"@[0] != "zsh"@[0]);
        assert("vim"@.len() != "fish"@.len());
        assert("vim"@.len() != "pl"@.len());
        assert("vim"@.len() != "r"@.len());
        assert("vim"@.len() != "R"@.len());
        assert("vim"@[0] != "yml"@[0]);
        assert("vim"@.len() != "yaml"@.len());
        assert("vim"@.len() != "toml"@.len());
        assert("vim"@.len() != "conf"@.len());
        assert("vim"@[0] != "ini"@[0]);
        assert("vim"@.len() != "tf"@.len());
        assert("vim"@[0] != "hcl"@[0]);
        assert("vim"@.len() != "ex"@.len());
        assert("vim"@[0] != "exs"@[0]);
        assert("vim"@[0] != "lua"@[0]);
        assert("vim"@[0] != "sql"@[0]);
        assert("vim"@.len() != "hs"@.len());
        assert("vim"@[0] != "lhs"@[0]);
        assert("vim"@[0] != "erl"@[0]);
        assert("vim"@[0] != "hrl"@[0]);
        assert("vim"@.len() != "ml"@.len());
        assert("vim"@[0] != "mli"@[0]);
        assert(syntax_for(e) == Some(SyntaxModel { line: Some("\""@), block: None }));
    }
    if e == "html"@ {
        assert("html"@.len() != "rs"@.len());
        assert("html"@.len() != "c"@.len());
        assert("html"@.len() != "cpp"@.len());
        assert("html"@.len() != "cc"@.len());
        assert("html"@.len() != "cxx"@.len());
        assert("html"@.len() != "h"@.len());
        assert("html"@.len() != "hpp"@.len());
        assert("html"@[0] != "java"@[0]);
        assert("html"@.len() != "js"@.len());
        assert("html"@.len() != "jsx"@.len());
        assert("html"@.len() != "ts"@.len());
        assert("html"@.len() != "tsx"@.len());
        assert("html"@.len() != "cs"@.len());
        assert("html"@.len() != "go"@.len());
        assert("html"@.len() != "swift"@.len());
        assert("html"@.len() != "kt"@.len());
        assert("html"@.len() != "kts"@.len());
        assert("html"@.len() != "scala"@.len());
        assert("html"@[0] != "dart"@[0]);
        assert("html"@.len() != "groovy"@.len());
        assert("html"@.len() != "gradle"@.len());
        assert("html"@.len() != "css"@.len());
        assert("html"@[0] != "scss"@[0]);
        assert("html"@[0] != "sass"@[0]);
        assert("html"@[0] != "less"@[0]);
        assert("html"@.len() != "py"@.len());
        assert("html"@.len() != "rb"@.len());
        assert("html"@.len() != "sh"@.len());
        assert("html"@[0] != "bash"@[0]);
        assert("html"@.len() != "zsh"@.len());
        assert("html"@[0] != "fish"@[0]);
        assert("html"@.len() != "pl"@.len());
        assert("html"@.len() != "r"@.len());
        assert("html"@.len() != "R"@.len());
        assert("html"@.len() != "yml"@.len());
        assert("html"@[0] != "yaml"@[0]);
        assert("html"@[0] != "toml"@[0]);
        assert("html"@[0] != "conf"@[0]);
        assert("html"@.len() != "ini"@.len());
        assert("html"@.len() != "tf"@.len());
        assert("html"@.len() != "hcl"@.len());
        assert("html"@.len() != "ex"@.len());
        assert("html"@.len() != "exs"@.len());
        assert("html"@.len() != "lua"@.len());
        assert("html"@.len() != "sql"@.len());
        assert("html"@.len() != "hs"@.len());
        assert("html"@.len() != "lhs"@.len());
        assert("html"@.len() != "erl"@.len());
        assert("html"@.len() != "hrl"@.len());
        assert("html"@.len() != "ml"@.len());
        assert("html"@.len() != "mli"@.len());
        assert("html"@.len() != "vim"@.len());
        assert(syntax_for(e) == Some(SyntaxModel { line: None, block: Some(("<!--"@, "-->"@)) }));
    }
    if e == "htm"@ {
        assert("htm"@.len() != "rs"@.len());
        assert("htm"@.len() != "c"@.len());
        assert("htm"@[0] != "cpp"@[0]);
        assert("htm"@.len() != "cc"@.len());
        assert("htm"@[0] != "cxx"@[0]);
        assert("htm"@.len() != "h"@.len());
        assert("htm"@[1] != "hpp"@[1]);
        assert("htm"@.len() != "java"@.len());
        assert("htm"@.len() != "js"@.len());
        assert("htm"@[0] != "jsx"@[0]);
        assert("htm"@.len() != "ts"@.len());
        assert("htm"@[0] != "tsx"@[0]);
        assert("htm"@.len() != "cs"@.len());
        assert("htm"@.len() != "go"@.len());
        assert("htm"@.len() != "swift"@.len());
        assert("htm"@.len() != "kt"@.len());
        assert("htm"@[0] != "kts"@[0]);
        assert("htm"@.len() != "scala"@.len());
        assert("htm"@.len() != "dart"@.len());
        assert("htm"@.len() != "groovy"@.len());
        assert("htm"@.len() != "gradle"@.len());
        assert("htm"@[0] != "css"@[0]);
        assert("htm"@.len() != "scss"@.len());
        assert("htm"@.len() != "sass"@.len());
        assert("htm"@.len() != "less"@.len());
        assert("htm"@.len() != "py"@.len());
        assert("htm"@.len() != "rb"@.len());
        assert("htm"@.len() != "sh"@.len());
        assert("htm"@.len() != "bash"@.len());
        assert("htm"@[0] != "zsh"@[0]);
        assert("htm"@.len() != "fish"@.len());
        assert("htm"@.len() != "pl"@.len());
        assert("htm"@.len() != "r"@.len());
        assert("htm"@.len() != "R"@.len());
        assert("htm"@[0] != "yml"@[0]);
        assert("htm"@.len() != "yaml"@.len());
        assert("htm"@.len() != "toml"@.len());
        assert("htm"@.len() != "conf"@.len());
        assert("htm"@[0] != "ini"@[0]);
        assert("htm"@.len() != "tf"@.len());
        assert("htm"@[1] != "hcl"@[1]);
        assert("htm"@.len() != "ex"@.len());
        assert("htm"@[0] != "exs"@[0]);
        assert("htm"@[0] != "lua"@[0]);
        assert("htm"@[0] != "sql"@[0]);
        assert("htm"@.len() != "hs"@.len());
        assert("htm"@[0] != "lhs"@[0]);
        assert("htm"@[0] != "erl"@[0]);
        assert("htm"@[1] != "hrl"@[1]);
        assert("htm"@.len() != "ml"@.len());
        assert("htm"@[0] != "mli"@[0]);
        assert("htm"@[0] != "vim"@[0]);
        assert(syntax_for(e) == Some(SyntaxModel { line: None, block: Some(("<!--"@, "-->"@)) }));
    }
    if e == "xml"@ {
        assert("xml"@.len() != "rs"@.len());
        assert("xml"@.len() != "c"@.len());
        assert("xml"@[0] != "cpp"@[0]);
        assert("xml"@.len() != "cc"@.len());
        assert("xml"@[0] != "cxx"@[0]);
        assert("xml"@.len() != "h"@.len());
        assert("xml"@[0] != "hpp"@[0]);
        assert("xml"@.len() != "java"@.len());
        assert("xml"@.len() != "js"@.len());
        assert("xml"@[0] != "jsx"@[0]);
        assert("xml"@.len() != "ts"@.len());
        assert("xml"@[0] != "tsx"@[0]);
        assert("xml"@.len() != "cs"@.len());
        assert("xml"@.len() != "go"@.len());
        assert("xml"@.len() != "swift"@.len());
        assert("xml"@.len() != "kt"@.len());
        assert("xml"@[0] != "kts"@[0]);
        assert("xml"@.len() != "scala"@.len());
        assert("xml"@.len() != "dart"@.len());
        assert("xml"@.len() != "groovy"@.len());
        assert("xml"@.len() != "gradle"@.len());
        assert("xml"@[0] != "css"@[0]);
        assert("xml"@.len() != "scss"@.len());
        assert("xml"@.len() != "sass"@.len());
        assert("xml"@.len() != "less"@.len());
        assert("xml"@.len() != "py"@.len());
        assert("xml"@.len() != "rb"@.len());
        assert("xml"@.len() != "sh"@.len());
        assert("xml"@.len() != "bash"@.len());
        assert("xml"@[0] != "zsh"@[0]);
        assert("xml"@.len() != "fish"@.len());
        assert("xml"@.len() != "pl"@.len());
        assert("xml"@.len() != "r"@.len());
        assert("xml"@.len() != "R"@.len());
        assert("xml"@[0] != "yml"@[0]);
        assert("xml"@.len() != "yaml"@.len());
        assert("xml"@.len() != "toml"@.len());
        assert("xml"@.len() != "conf"@.len());
        assert("xml"@[0] != "ini"@[0]);
        assert("xml"@.len() != "tf"@.len());
        assert("xml"@[0] != "hcl"@[0]);
        assert("xml"@.len() != "ex"@.len());
        assert("xml"@[0] != "exs"@[0]);
        assert("xml"@[0] != "lua"@[0]);
        assert("xml"@[0] != "sql"@[0]);
        assert("xml"@.len() != "hs"@.len());
        assert("xml"@[0] != "lhs"@[0]);
        assert("xml"@[0] != "erl"@[0]);
        assert("xml"@[0] != "hrl"@[0]);
        assert("xml"@.len() != "ml"@.len());
        assert("xml"@[0] != "mli"@[0]);
        assert("xml"@[0] != "vim"@[0]);
        assert(syntax_for(e) == Some(SyntaxModel { line: None, block: Some(("<!--"@, "-->"@)) }));
    }
    if e == "svg"@ {
        assert("svg"@.len() != "rs"@.len());
        assert("svg"@.len() != "c"@.len());
        assert("svg"@[0] != "cpp"@[0]);
        assert("svg"@.len() != "cc"@.len());
        assert("svg"@[0] != "cxx"@[0]);
        assert("svg"@.len() != "h"@.len());
        assert("svg"@[0] != "hpp"@[0]);
        assert("svg"@.len() != "java"@.len());
        assert("svg"@.len() != "js"@.len());
        assert("svg"@[0] != "jsx"@[0]);
        assert("svg"@.len() != "ts"@.len());
        assert("svg"@[0] != "tsx"@[0]);
        assert("svg"@.len() != "cs"@.len());
        assert("svg"@.len() != "go"@.len());
        assert("svg"@.len() != "swift"@.len());
        assert("svg"@.len() != "kt"@.len());
        assert("svg"@[0] != "kts"@[0]);
        assert("svg"@.len() != "scala"@.len());
        assert("svg"@.len() != "dart"@.len());
        assert("svg"@.len() != "groovy"@.len());
        assert("svg"@.len() != "gradle"@.len());
        assert("svg"@[0] != "css"@[0]);
        assert("svg"@.len() != "scss"@.len());
        assert("svg"@.len() != "sass"@.len());
        assert("svg"@.len() != "less"@.len());
        assert("svg"@.len() != "py"@.len());
        assert("svg"@.len() != "rb"@.len());
        assert("svg"@.len() != "sh"@.len());
        assert("svg"@.len() != "bash"@.len());
        assert("svg"@[0] != "zsh"@[0]);
        assert("svg"@.len() != "fish"@.len());
        assert("svg"@.len() != "pl"@.len());
        assert("svg"@.len() != "r"@.len());
        assert("svg"@.len() != "R"@.len());
        assert("svg"@[0] != "yml"@[0]);
        assert("svg"@.len() != "yaml"@.len());
        assert("svg"@.len() != "toml"@.len());
        assert("svg"@.len() != "conf"@.len());
        assert("svg"@[0] != "ini"@[0]);
        assert("svg"@.len() != "tf"@.len());
        assert("svg"@[0] != "hcl"@[0]);
        assert("svg"@.len() != "ex"@.len());
        assert("svg"@[0] != "exs"@[0]);
        assert("svg"@[0] != "lua"@[0]);
        assert("svg"@[1] != "sql"@[1]);
        assert("svg"@.len() != "hs"@.len());
        assert("svg"@[0] != "lhs"@[0]);
        assert("svg"@[0] != "erl"@[0]);
        assert("svg"@[0] != "hrl"@[0]);
        assert("svg"@.len() != "ml"@.len());
        assert("svg"@[0] != "mli"@[0]);
        assert("svg"@[0] != "vim"@[0]);
        assert(syntax_for(e) == Some(SyntaxModel { line: None, block: Some(("<!--"@, "-->"@)) }));
    }
    if e == "md"@ {
        assert("md"@[0] != "rs"@[0]);
        assert("md"@.len() != "c"@.len());
        assert("md"@.len() != "cpp"@.len());
        assert("md"@[0] != "cc"@[0]);
        assert("md"@.len() != "cxx"@.len());
        assert("md"@.len() != "h"@.len());
        assert("md"@.len() != "hpp"@.len());
        assert("md"@.len() != "java"@.len());
        assert("md"@[0] != "js"@[0]);
        assert("md"@.len() != "jsx"@.len());
        assert("md"@[0] != "ts"@[0]);
        assert("md"@.len() != "tsx"@.len());
        assert("md"@[0] != "cs"@[0]);
        assert("md"@[0] != "go"@[0]);
        assert("md"@.len() != "swift"@.len());
        assert("md"@[0] != "kt"@[0]);
        assert("md"@.len() != "kts"@.len());
        assert("md"@.len() != "scala"@.len());
        assert("md"@.len() != "dart"@.len());
        assert("md"@.len() != "groovy"@.len());
        assert("md"@.len() != "gradle"@.len());
        assert("md"@.len() != "css"@.len());
        assert("md"@.len() != "scss"@.len());
        assert("md"@.len() != "sass"@.len());
        assert("md"@.len() != "less"@.len());
        assert("md"@[0] != "py"@[0]);
        assert("md"@[0] != "rb"@[0]);
        assert("md"@[0] != "sh"@[0]);
        assert("md"@.len() != "bash"@.len());
        assert("md"@.len() != "zsh"@.len());
        assert("md"@.len() != "fish"@.len());
        assert("md"@[0] != "pl"@[0]);
        assert("md"@.len() != "r"@.len());
        assert("md"@.len() != "R"@.len());
        assert("md"@.len() != "yml"@.len());
        assert("md"@.len() != "yaml"@.len());
        assert("md"@.len() != "toml"@.len());
        assert("md"@.len() != "conf"@.len());
        assert("md"@.len() != "ini"@.len());
        assert("md"@[0] != "tf"@[0]);
        assert("md"@.len() != "hcl"@.len());
        assert("md"@[0] != "ex"@[0]);
        assert("md"@.len() != "exs"@.len());
        assert("md"@.len() != "lua"@.len());
        assert("md"@.len() != "sql"@.len());
        assert("md"@[0] != "hs"@[0]);
        assert("md"@.len() != "lhs"@.len());
        assert("md"@.len() != "erl"@.len());
        assert("md"@.len() != "hrl"@.len());
        assert("md"@[1] != "ml"@[1]);
        assert("md"@.len() != "mli"@.len());
        assert("md"@.len() != "vim"@.len());
        assert(syntax_for(e) == Some(SyntaxModel { line: None, block: Some(("<!--"@, "-->"@)) }));
    }
    if e == "markdown"@ {
        assert("markdown"@.len() != "rs"@.len());
        assert("markdown"@.len() != "c"@.len());
        assert("markdown"@.len() != "cpp"@.len());
        assert("markdown"@.len() != "cc"@.len());
        assert("markdown"@.len() != "cxx"@.len());
        assert("markdown"@.len() != "h"@.len());
        assert("markdown"@.len() != "hpp"@.len());
        assert("markdown"@.len() != "java"@.len());
        assert("markdown"@.len() != "js"@.len());
        assert("markdown"@.len() != "jsx"@.len());
        assert("markdown"@.len() != "ts"@.len());
        assert("markdown"@.len() != "tsx"@.len());
        assert("markdown"@.len() != "cs"@.len());
        assert("markdown"@.len() != "go"@.len());
        assert("markdown"@.len() != "swift"@.len());
        assert("markdown"@.len() != "kt"@.len());
        assert("markdown"@.len() != "kts"@.len());
        assert("markdown"@.len() != "scala"@.len());
        assert("markdown"@.len() != "dart"@.len());
        assert("markdown"@.len() != "groovy"@.len());
        assert("markdown"@.len() != "gradle"@.len());
        assert("markdown"@.len() != "css"@.len());
        assert("markdown"@.len() != "scss"@.len());
        assert("markdown"@.len() != "sass"@.len());
        assert("markdown"@.len() != "less"@.len());
        assert("markdown"@.len() != "py"@.len());
        assert("markdown"@.len() != "rb"@.len());
        assert("markdown"@.len() != "sh"@.len());
        assert("markdown"@.len() != "bash"@.len());
        assert("markdown"@.len() != "zsh"@.len());
        assert("markdown"@.len() != "fish"@.len());
        assert("markdown"@.len() != "pl"@.len());
        assert("markdown"@.len() != "r"@.len());
        assert("markdown"@.len() != "R"@.len());
        assert("markdown"@.len() != "yml"@.len());
        assert("markdown"@.len() != "yaml"@.len());
        assert("markdown"@.len() != "toml"@.len());
        assert("markdown"@.len() != "conf"@.len());
        assert("markdown"@.len() != "ini"@.len());
        assert("markdown"@.len() != "tf"@.len());
        assert("markdown"@.len() != "hcl"@.len());
        assert("markdown"@.len() != "ex"@.len());
        assert("markdown"@.len() != "exs"@.len());
        assert("markdown"@.len() != "lua"@.len());
        assert("markdown"@.len() != "sql"@.len());
        assert("markdown"@.len() != "hs"@.len());
        assert("markdown"@.len() != "lhs"@.len());
        assert("markdown"@.len() != "erl"@.len());
        assert("markdown"@.len() != "hrl"@.len());
        assert("markdown"@.len() != "ml"@.len());
        assert("markdown"@.len() != "mli"@.len());
        assert("markdown"@.len() != "vim"@.len());
        assert(syntax_for(e) == Some(SyntaxModel { line: None, block: Some(("<!--"@, "-->"@)) }));
    }
}

/// In a file of the C family (`js` among them), a line whose text starts
/// with `//` is a comment and holds no code, outside a block comment; so
/// source-line counting leaves it out.
pub proof fn lemma_c_family_line_comment(e: Seq<char>, s: Seq<char>)
    requires
        e == "rs"@ || e == "c"@ || e == "cpp"@ || e == "cc"@ || e == "cxx"@ || e == "h"@ || e
            == "hpp"@ || e == "java"@ || e == "js"@ || e == "jsx"@ || e == "ts"@ || e == "tsx"@
            || e == "cs"@ || e == "go"@ || e == "swift"@ || e == "kt"@ || e == "kts"@ || e
            == "scala"@ || e == "dart"@ || e == "groovy"@ || e == "gradle"@,
        starts_with(trim(s), "//"@),
    ensures
        syntax_for(e) is Some,
        !classify_line(s, false, syntax_for(e)->0).0,
{
    lemma_syntax_table(e);
    lemma_syntax_wf(e);
    let syn = syntax_for(e)->0;
    let t = trim(s);
    reveal_strlit("//");
    reveal_strlit("/*");
    assert(t.subrange(0, 2) == "//"@);
    assert(t[1] == t.subrange(0, 2)[1]);
    assert(!starts_with(t, "/*"@)) by {
        if starts_with(t, "/*"@) {
            assert(t[1] == t.subrange(0, 2)[1]);
        }
    }
    assert(prefix_leads(t, syn));
    lemma_leading_comment_scan(s, syn);
}

proof fn lemma_syntax_wf(ext: Seq<char>)
    ensures
        syntax_for(ext) matches Some(m) ==> m.wf(),
{
    reveal_strlit("#");
    reveal_strlit("%");
    reveal_strlit("(*");
    reveal_strlit("*)");
    reveal_strlit("*/");
    reveal_strlit("--");
    reveal_strlit("-->");
    reveal_strlit("--[[");
    reveal_strlit("-}");
    reveal_strlit("/*");
    reveal_strlit("//");
    reveal_strlit("<!--");
    reveal_strlit("\"");
    reveal_strlit("]]");
    reveal_strlit("{-");
}

/// `e` spells `lit`.
fn eq_lit(e: &Vec<char>, lit: &str) -> (r: bool)
    ensures
        r == (e@ == lit@),
{
    let l = chars_of(lit);
    if l.len() != e.len() {
        return false;
    }
    let mut i: usize = 0;
    while i < e.len()
        invariant
            l@ == lit@,
            l.len() == e.len(),
            i <= e.len(),
            forall|k: int| 0 <= k < i ==> e@[k] == l@[k],
        decreases e.len() - i,
    {
        if e[i] != l[i] {
            return false;
        }
        i = i + 1;
    }
    assert(e@ =~= l@);
    true
}

fn syntax_from(line: Option<&str>, block: Option<(&str, &str)>) -> (r: CommentSyntax)
    ensures
        r@.line == (match line {
            Some(l) => Some(l@),
            None => None,
        }),
        r@.block == (match block {
            Some(b) => Some((b.0@, b.1@)),
            None => None,
        }),
{
    let l = match line {
        Some(l) => Some(chars_of(l)),
        None => None,
    };
    let b = match block {
        Some(b) => Some((chars_of(b.0), chars_of(b.1))),
        None => None,
    };
    CommentSyntax { line: l, block: b }
}

/// The comment syntax for a recognised file extension, or `None` for an
/// unknown one.
pub fn comment_syntax(ext: &str) -> (r: Option<CommentSyntax>)
    ensures
        match r {
            Some(syn) => syntax_for(ext@) == Some(syn@) && syn.wf(),
            None => syntax_for(ext@) is None,
        },
{
    let e = chars_of(ext);
    proof {
        lemma_syntax_wf(ext@);
    }
    if eq_lit(&e, "rs") || eq_lit(&e, "c") || eq_lit(&e, "cpp") || eq_lit(&e, "cc") || eq_lit(&e, "cxx") || eq_lit(&e, "h") || eq_lit(&e, "hpp") || eq_lit(&e, "java") || eq_lit(&e, "js") || eq_lit(&e, "jsx") || eq_lit(&e, "ts") || eq_lit(&e, "tsx") || eq_lit(&e, "cs") || eq_lit(&e, "go") || eq_lit(&e, "swift") || eq_lit(&e, "kt") || eq_lit(&e, "kts") || eq_lit(&e, "scala") || eq_lit(&e, "dart") || eq_lit(&e, "groovy") || eq_lit(&e, "gradle") {
        Some(syntax_from(Some("//"), Some(("/*", "*/"))))
    } else if eq_lit(&e, "css") || eq_lit(&e, "scss") || eq_lit(&e, "sass") || eq_lit(&e, "less") {
        Some(syntax_from(None, Some(("/*", "*/"))))
    } else if eq_lit(&e, "py") || eq_lit(&e, "rb") || eq_lit(&e, "sh") || eq_lit(&e, "bash") || eq_lit(&e, "zsh") || eq_lit(&e, "fish") || eq_lit(&e, "pl") || eq_lit(&e, "r") || eq_lit(&e, "R") || eq_lit(&e, "yml") || eq_lit(&e, "yaml") || eq_lit(&e, "toml") || eq_lit(&e, "conf") || eq_lit(&e, "ini") || eq_lit(&e, "tf") || eq_lit(&e, "hcl") || eq_lit(&e, "ex") || eq_lit(&e, "exs") {
        Some(syntax_from(Some("#"), None))
    } else if eq_lit(&e, "lua") {
        Some(syntax_from(Some("--"), Some(("--[[", "]]"))))
    } else if eq_lit(&e, "sql") {
        Some(syntax_from(Some("--"), Some(("/*", "*/"))))
    } else if eq_lit(&e, "hs") || eq_lit(&e, "lhs") {
        Some(syntax_from(Some("--"), Some(("{-", "-}"))))
    } else if eq_lit(&e, "erl") || eq_lit(&e, "hrl") {
        Some(syntax_from(Some("%"), None))
    } else if eq_lit(&e, "ml") || eq_lit(&e, "mli") {
        Some(syntax_from(None, Some(("(*", "*)"))))
    } else if eq_lit(&e, "vim") {
        Some(syntax_from(Some("\""), None))
    } else if eq_lit(&e, "html") || eq_lit(&e, "htm") || eq_lit(&e, "xml") || eq_lit(&e, "svg") || eq_lit(&e, "md") || eq_lit(&e, "markdown") {
        Some(syntax_from(None, Some(("<!--", "-->"))))
    } else {
        None
    }
}

/// The lines counted in `content` under `mode`, where `ext` is the file
/// extension.
pub open spec fn lines_counted(content: Seq<u8>, mode: LineMode, ext: Option<Seq<char>>) -> nat {
    match mode {
        LineMode::Physical => physical_lines(content),
        LineMode::Sloc => source_lines(content, ext),
    }
}

/// The character a byte is read as in content that is not UTF-8: an ASCII
/// byte as itself, any other byte as U+FFFD.
pub open spec fn byte_char(x: u8) -> char {
    if x < 0x80 {
        x as char
    } else {
        '\u{FFFD}'
    }
}

/// The text of `content`: its characters when it is UTF-8, and otherwise its
/// bytes read one by one with [`byte_char`].
pub open spec fn content_text(content: Seq<u8>) -> Seq<char> {
    if valid_utf8(content) {
        decode_utf8(content)
    } else {
        content.map_values(|x: u8| byte_char(x))
    }
}

/// Source lines: blank lines are left out, and so are comment-only lines
/// when `ext` names a recognised language.
pub open spec fn source_lines(content: Seq<u8>, ext: Option<Seq<char>>) -> nat {
    let text = content_text(content);
    let syn = match ext {
        Some(e) => syntax_for(e),
        None => None,
    };
    match syn {
        Some(m) => sloc_lines(lines(text), false, m),
        None => nonblank_lines(lines(text)),
    }
}

/// `byte_char(x)`.
fn byte_to_char(x: u8) -> (c: char)
    ensures
        c == byte_char(x),
{
    if x < 0x80 {
        x as char
    } else {
        '\u{FFFD}'
    }
}

/// The characters of `content` read byte by byte with [`byte_char`].
fn bytes_as_chars(content: &[u8]) -> (r: Vec<char>)
    ensures
        r@ == content@.map_values(|x: u8| byte_char(x)),
{
    let mut r: Vec<char> = Vec::new();
    let mut i: usize = 0;
    while i < content.len()
        invariant
            i <= content.len(),
            r@ == content@.take(i as int).map_values(|x: u8| byte_char(x)),
        decreases content.len() - i,
    {
        r.push(byte_to_char(content[i]));
        assert(content@.take(i + 1).map_values(|x: u8| byte_char(x)) =~= content@.take(
            i as int,
        ).map_values(|x: u8| byte_char(x)).push(byte_char(content@[i as int])));
        i = i + 1;
    }
    assert(content@.take(i as int) =~= content@);
    r
}

/// Calls `std::str::from_utf8`, taken on trust to succeed exactly on valid
/// UTF-8 and then to give the text whose UTF-8 encoding is `content`.
#[verifier::external_body]
fn utf8_text(content: &[u8]) -> (r: Option<&str>)
    ensures
        r is Some <==> valid_utf8(content@),
        r matches Some(s) ==> encode_utf8(s@) == content@,
{
    std::str::from_utf8(content).ok()
}

/// The lines counted in `content` under `mode`; `ext` is the file extension.
pub fn count_lines(content: &[u8], mode: &LineMode, ext: Option<&str>) -> (r: usize)
    ensures
        r == lines_counted(
            content@,
            *mode,
            match ext {
                Some(e) => Some(e@),
                None => None,
            },
        ),
{
    match mode {
        LineMode::Physical => count_physical(content),
        LineMode::Sloc => count_sloc(content, ext),
    }
}

/// Source lines of `content`; `ext` is the file extension.
pub fn count_sloc(content: &[u8], ext: Option<&str>) -> (r: usize)
    ensures
        r == source_lines(
            content@,
            match ext {
                Some(e) => Some(e@),
                None => None,
            },
        ),
{
    let chars = match utf8_text(content) {
        Some(s) => {
            proof {
                encode_utf8_decode_utf8(s@);
            }
            chars_of(s)
        },
        None => bytes_as_chars(content),
    };
    let syntax = match ext {
        Some(e) => comment_syntax(e),
        None => None,
    };
    match syntax {
        None => nonblank_chars(&chars),
        Some(syn) => sloc_chars(&chars, &syn),
    }
}

/// Source lines of `text` under the comment syntax `syn`.
pub fn count_sloc_with_syntax(text: &str, syn: CommentSyntax) -> (r: usize)
    requires
        syn.wf(),
    ensures
        r == sloc_lines(lines(text@), false, syn@),
{
    let chars = chars_of(text);
    sloc_chars(&chars, &syn)
}

proof fn lemma_count_byte_bound(b: Seq<u8>, x: u8)
    ensures
        count_byte(b, x) <= b.len(),
    decreases b.len(),
{
    if b.len() > 0 {
        lemma_count_byte_bound(b.drop_last(), x);
    }
}

proof fn lemma_count_byte_last(b: Seq<u8>, x: u8)
    requires
        b.len() > 0,
        b.last() != x,
    ensures
        count_byte(b, x) < b.len(),
{
    lemma_count_byte_bound(b.drop_last(), x);
}


proof fn lemma_count_byte_concat(a: Seq<u8>, b: Seq<u8>, x: u8)
    ensures
        count_byte(a + b, x) == count_byte(a, x) + count_byte(b, x),
    decreases b.len(),
{
    if b.len() == 0 {
        assert(a + b =~= a);
    } else {
        lemma_count_byte_concat(a, b.drop_last(), x);
        assert((a + b).drop_last() =~= a + b.drop_last());
    }
}

proof fn lemma_count_char_concat(a: Seq<char>, b: Seq<char>, c: char)
    ensures
        count_char(a + b, c) == count_char(a, c) + count_char(b, c),
    decreases b.len(),
{
    if b.len() == 0 {
        assert(a + b =~= a);
    } else {
        lemma_count_char_concat(a, b.drop_last(), c);
        assert((a + b).drop_last() =~= a + b.drop_last());
    }
}

proof fn lemma_count_char_absent(s: Seq<char>, c: char)
    requires
        forall|k: int| 0 <= k < s.len() ==> s[k] != c,
    ensures
        count_char(s, c) == 0,
    decreases s.len(),
{
    if s.len() > 0 {
        lemma_count_char_absent(s.drop_last(), c);
    }
}

proof fn lemma_count_byte_high(e: Seq<u8>)
    requires
        forall|k: int| 0 <= k < e.len() ==> e[k] >= 0x80u8,
    ensures
        count_byte(e, 10u8) == 0,
    decreases e.len(),
{
    if e.len() > 0 {
        lemma_count_byte_high(e.drop_last());
    }
}

proof fn lemma_encode_concat(a: Seq<char>, b: Seq<char>)
    ensures
        encode_utf8(a + b) == encode_utf8(a) + encode_utf8(b),
    decreases a.len(),
{
    if a.len() == 0 {
        assert(a + b =~= b);
        assert(encode_utf8(a) + encode_utf8(b) =~= encode_utf8(b));
    } else {
        lemma_encode_concat(a.drop_first(), b);
        assert((a + b).drop_first() =~= a.drop_first() + b);
        assert((a + b)[0] == a[0]);
        assert(encode_utf8(a + b) =~= encode_utf8(a) + encode_utf8(b));
    }
}

/// The encoding of a character holds the newline byte exactly when the
/// character is a newline, and then as its only byte.
proof fn lemma_encode_scalar_newline(c: char)
    ensures
        encode_scalar(c as u32).len() >= 1,
        count_byte(encode_scalar(c as u32), 10u8) == (if c == '\n' {
            1nat
        } else {
            0nat
        }),
        (encode_scalar(c as u32).last() == 10u8) == (c == '\n'),
{
    char_is_scalar(c);
    let u = c as u32;
    let e = encode_scalar(u);
    if has_width_1_encoding(u) {
        let b = leading_byte_width_1(u);
        assert(u <= 0x7f ==> (u & 0x7f) as u8 == u) by (bit_vector);
        assert(e == seq![b]);
        assert(e.drop_last() =~= Seq::<u8>::empty());
        assert(count_byte(e, 10u8) == count_byte(e.drop_last(), 10u8) + (if b == 10u8 {
            1nat
        } else {
            0nat
        }));
        assert((u == 10u32) == (c == '\n')) by {
            vstd::utf8::char_u32_cast(c, u);
        }
    } else {
        assert(0xC0u8 | ((u >> 6) & 0x1F) as u8 >= 0xC0u8) by (bit_vector);
        assert(0xE0u8 | ((u >> 12) & 0x0F) as u8 >= 0xE0u8) by (bit_vector);
        assert(0xF0u8 | ((u >> 18) & 0x7) as u8 >= 0xF0u8) by (bit_vector);
        assert(0x80u8 | ((u >> 12) & 0x3F) as u8 >= 0x80u8) by (bit_vector);
        assert(0x80u8 | ((u >> 6) & 0x3F) as u8 >= 0x80u8) by (bit_vector);
        assert(0x80u8 | (u & 0x3F) as u8 >= 0x80u8) by (bit_vector);
        assert(forall|k: int| 0 <= k < e.len() ==> e[k] >= 0x80u8);
        lemma_count_byte_high(e);
        assert(u != 10);
    }
}

/// The physical lines of UTF-8 text, counted on its bytes, are the
/// newlines of its characters plus one for a last line without a newline.
proof fn lemma_physical_of_encoding(cs: Seq<char>)
    ensures
        physical_lines(encode_utf8(cs)) == count_char(cs, '\n') + (if cs.len() > 0 && cs.last()
            != '\n' {
            1nat
        } else {
            0nat
        }),
        count_byte(encode_utf8(cs), 10u8) == count_char(cs, '\n'),
        encode_utf8(cs).len() == 0 <==> cs.len() == 0,
    decreases cs.len(),
{
    if cs.len() > 0 {
        let init = cs.drop_last();
        let c = cs.last();
        lemma_physical_of_encoding(init);
        assert(cs =~= init + seq![c]);
        lemma_encode_concat(init, seq![c]);
        assert(encode_utf8(seq![c]) =~= encode_scalar(c as u32)) by {
            assert(seq![c].drop_first() =~= Seq::<char>::empty());
            assert(seq![c][0] == c);
            assert(encode_utf8(Seq::<char>::empty()) =~= Seq::<u8>::empty());
            assert(encode_utf8(seq![c]) == encode_scalar(c as u32) + encode_utf8(
                Seq::<char>::empty(),
            ));
        }
        lemma_encode_scalar_newline(c);
        lemma_count_byte_concat(encode_utf8(init), encode_scalar(c as u32), 10u8);
        let e = encode_utf8(cs);
        assert(e.last() == encode_scalar(c as u32).last());
    }
}

/// The lines of `s` from index `i`: the newlines from `i` on, plus one for a
/// last line without a newline.
proof fn lemma_lines_count(s: Seq<char>, i: int)
    requires
        0 <= i <= s.len(),
    ensures
        lines_from(s, i).len() == count_char(s.subrange(i, s.len() as int), '\n') + (if i
            < s.len() && s.last() != '\n' {
            1nat
        } else {
            0nat
        }),
    decreases s.len() - i,
{
    if i < s.len() {
        lemma_next_newline(s, i);
        let j = next_newline(s, i);
        lemma_count_char_absent(s.subrange(i, j), '\n');
        assert(lines_from(s, i).len() == 1 + lines_from(s, j + 1).len());
        if j == s.len() {
            assert(lines_from(s, j + 1).len() == 0);
            assert(s.subrange(i, s.len() as int) == s.subrange(i, j));
            assert(s[s.len() - 1] != '\n');
        } else {
            lemma_lines_count(s, j + 1);
            assert(s.subrange(i, s.len() as int) =~= s.subrange(i, j) + seq![s[j]] + s.subrange(
                j + 1,
                s.len() as int,
            ));
            lemma_count_char_concat(s.subrange(i, j) + seq![s[j]], s.subrange(j + 1, s.len() as int), '\n');
            lemma_count_char_concat(s.subrange(i, j), seq![s[j]], '\n');
            assert(seq![s[j]].drop_last() =~= Seq::<char>::empty());
            assert(seq![s[j]].last() == '\n');
            assert(count_char(seq![s[j]].drop_last(), '\n') == 0);
            assert(count_char(seq![s[j]], '\n') == 1);
            if j + 1 == s.len() {
                assert(s.last() == '\n');
            }
        }
    } else {
        assert(s.subrange(i, s.len() as int) =~= Seq::<char>::empty());
    }
}

proof fn lemma_sloc_at_most_lines(ls: Seq<Seq<char>>, in_block: bool, syn: SyntaxModel)
    ensures
        sloc_lines(ls, in_block, syn) <= ls.len(),
    decreases ls.len(),
{
    if ls.len() > 0 {
        let (c, b) = classify_line(ls[0], in_block, syn);
        lemma_sloc_at_most_lines(ls.drop_first(), b, syn);
    }
}

proof fn lemma_nonblank_at_most_lines(ls: Seq<Seq<char>>)
    ensures
        nonblank_lines(ls) <= ls.len(),
    decreases ls.len(),
{
    if ls.len() > 0 {
        lemma_nonblank_at_most_lines(ls.drop_first());
    }
}

/// Read byte by byte, content has a newline character where it has a
/// newline byte, and nowhere else.
proof fn lemma_physical_of_bytes(b: Seq<u8>)
    ensures
        count_char(b.map_values(|x: u8| byte_char(x)), '\n') == count_byte(b, 10u8),
        b.len() > 0 ==> ((b.map_values(|x: u8| byte_char(x)).last() == '\n') == (b.last()
            == 10u8)),
    decreases b.len(),
{
    if b.len() > 0 {
        lemma_physical_of_bytes(b.drop_last());
        assert(b.map_values(|x: u8| byte_char(x)).drop_last() =~= b.drop_last().map_values(
            |x: u8| byte_char(x),
        ));
        let x = b.last();
        assert((byte_char(x) == '\n') == (x == 10u8)) by {
            if x < 0x80 {
                assert((x as char) as u32 == x as u32);
            }
        }
    }
}

/// Counting source lines never gives more than counting physical lines, for
/// any content and any extension.
pub proof fn lemma_sloc_at_most_physical(content: Seq<u8>, ext: Option<Seq<char>>)
    ensures
        source_lines(content, ext) <= physical_lines(content),
{
    let text = content_text(content);
    if valid_utf8(content) {
        decode_utf8_encode_utf8(content);
        lemma_physical_of_encoding(text);
    } else {
        lemma_physical_of_bytes(content);
    }
    lemma_lines_count(text, 0);
    assert(text.subrange(0, text.len() as int) =~= text);
    let syn = match ext {
        Some(e) => syntax_for(e),
        None => None,
    };
    match syn {
        Some(m) => lemma_sloc_at_most_lines(lines(text), false, m),
        None => lemma_nonblank_at_most_lines(lines(text)),
    }
}

/// The lines counted in either mode: physical lines are the most.
pub proof fn lemma_line_modes_ordered(content: Seq<u8>, ext: Option<Seq<char>>)
    ensures
        lines_counted(content, LineMode::Sloc, ext) <= lines_counted(content, LineMode::Physical, ext),
{
    lemma_sloc_at_most_physical(content, ext);
}

} // verus!
