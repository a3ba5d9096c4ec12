use sheat::config::LineMode;
use sheat::count::{comment_syntax, count_lines, count_physical, count_sloc, count_sloc_with_syntax};

#[test]
fn empty_file_zero_lines() {
    assert_eq!(count_physical(b""), 0);
    assert_eq!(count_sloc(b"", None), 0);
}

#[test]
fn single_line_no_newline() {
    assert_eq!(count_physical(b"hello"), 1);
}

#[test]
fn single_line_with_newline() {
    assert_eq!(count_physical(b"hello\n"), 1);
}

#[test]
fn multiple_lines() {
    assert_eq!(count_physical(b"a\nb\nc\n"), 3);
    assert_eq!(count_physical(b"a\nb\nc"), 3);
}

#[test]
fn blank_lines_excluded_in_sloc() {
    assert_eq!(count_sloc(b"a\n\nb\n", None), 2);
}

#[test]
fn blank_lines_counted_in_physical() {
    assert_eq!(count_physical(b"a\n\nb\n"), 3);
}

#[test]
fn comment_lines_excluded_in_sloc_known_lang() {
    let src = b"fn main() {}\n// comment\n\n  // indented comment\n";
    assert_eq!(count_sloc(src, Some("rs")), 1);
}

#[test]
fn inline_comment_not_excluded() {
    let src = b"let x = 1; // inline\n";
    assert_eq!(count_sloc(src, Some("rs")), 1);
}

#[test]
fn unknown_ext_falls_back_to_nonblank() {
    let src = b"# comment\ncode\n\n";
    assert_eq!(count_sloc(src, Some("xyz")), 2);
}

#[test]
fn block_comment_single_line_excluded() {
    let src = b"code\n/* a block comment */\nmore code\n";
    assert_eq!(count_sloc(src, Some("rs")), 2);
}

#[test]
fn block_comment_multiline_excluded() {
    let src = b"code\n/*\n * middle\n */\nmore code\n";
    assert_eq!(count_sloc(src, Some("rs")), 2);
}

#[test]
fn block_comment_inline_not_excluded() {
    let src = b"int x = 1; /* set x */\n";
    assert_eq!(count_sloc(src, Some("rs")), 1);
}

#[test]
fn block_comment_code_after_close_counts() {
    let src = b"/* comment */ int x;\n";
    assert_eq!(count_sloc(src, Some("rs")), 1);
}

#[test]
fn html_block_comment_excluded() {
    let src = b"<div>\n<!-- comment -->\n</div>\n";
    assert_eq!(count_sloc(src, Some("html")), 2);
}

#[test]
fn haskell_block_comment_excluded() {
    let src = b"main = pure ()\n{-\nnote\n-}\n";
    assert_eq!(count_sloc(src, Some("hs")), 1);
}

#[test]
fn ocaml_block_comment_excluded() {
    let src = b"let x = 1\n(* block *)\nlet y = 2\n";
    assert_eq!(count_sloc(src, Some("ml")), 2);
}

#[test]
fn css_no_line_comment_block_excluded() {
    let src = b".foo { color: red; }\n/* reset */\n.bar {}\n";
    assert_eq!(count_sloc(src, Some("css")), 2);
}

#[test]
fn line_comment_containing_block_delimiter_not_mishandled() {
    let src = b"// /* not a block start */\nlet x = 1;\nlet y = 2;\n";
    assert_eq!(count_sloc(src, Some("rs")), 2);
}

#[test]
fn line_comment_containing_block_open_does_not_corrupt_state() {
    let src = b"code_a\n// /* open\ncode_b\ncode_c\n";
    assert_eq!(count_sloc(src, Some("rs")), 3);
}

#[test]
fn trailing_line_comment_with_block_delimiter_not_mishandled() {
    let src = b"fn a() {} // /* not block\nfn b() {}\n";
    assert_eq!(count_sloc(src, Some("rs")), 2);
}

#[test]
fn trailing_line_comment_block_delimiter_does_not_corrupt_state() {
    let src = b"fn a() {} // /*\nfn b() {}\nfn c() {}\n";
    assert_eq!(count_sloc(src, Some("rs")), 3);
}

#[test]
fn block_comment_containing_line_comment_prefix_excluded() {
    let src = b"/* // inside block */\nfn b() {}\n";
    assert_eq!(count_sloc(src, Some("rs")), 1);
}

#[test]
fn multiline_block_containing_line_prefix_does_not_corrupt_state() {
    let src = b"/*\n// still in block\n*/\nfn b() {}\n";
    assert_eq!(count_sloc(src, Some("rs")), 1);
}

#[test]
fn block_close_followed_by_line_comment_only_not_counted() {
    let src = b"/* block */ // trailing comment only\nfn b() {}\n";
    assert_eq!(count_sloc(src, Some("rs")), 1);
}

#[test]
fn multiline_block_close_followed_by_line_comment_only_not_counted() {
    let src = b"/*\nmiddle\n*/ // trailing\nfn b() {}\n";
    assert_eq!(count_sloc(src, Some("rs")), 1);
}

#[test]
fn block_close_followed_by_real_code_still_counted() {
    let src = b"/* comment */ int x;\n";
    assert_eq!(count_sloc(src, Some("rs")), 1);
}

#[test]
fn multiple_block_comments_on_one_line_not_counted() {
    let src = b"/* a */ /* b */\nfn c() {}\n";
    assert_eq!(count_sloc(src, Some("rs")), 1);
}

#[test]
fn multiline_block_close_then_another_block_not_counted() {
    let src = b"/*\nmiddle\n*/ /* b */\nfn c() {}\n";
    assert_eq!(count_sloc(src, Some("rs")), 1);
}

#[test]
fn multiple_blocks_then_code_counted() {
    let src = b"/* a */ /* b */ int x;\n";
    assert_eq!(count_sloc(src, Some("rs")), 1);
}

// ---- further cases ----

#[test]
fn invalid_utf8_drops_blank_lines_in_sloc_mode() {
    let src: &[u8] = &[0x66, 0x6f, 0xff, b'\n', b'\n', b'x'];
    assert_eq!(count_sloc(src, Some("rs")), 2);
    assert_eq!(count_physical(src), 3);
    assert_eq!(count_sloc(b"\xff\n\n", Some("rs")), 1);
    assert_eq!(count_sloc(b"\xff\n  \t\n// c\xfe\nx\n", Some("rs")), 2);
    assert_eq!(count_sloc(b"\xa0\n\x85\n\n", None), 2);
}

#[test]
fn unicode_whitespace_is_blank() {
    // U+3000 (ideographic space) and U+00A0 are whitespace to `str::trim`.
    let src = "a\n\u{3000}\u{a0}\n\r\nb".as_bytes();
    assert_eq!(count_sloc(src, None), 2);
    assert_eq!(count_physical(src), 4);
}

#[test]
fn crlf_lines_are_trimmed() {
    let src = b"// c\r\nx\r\n\r\n";
    assert_eq!(count_sloc(src, Some("rs")), 1);
    assert_eq!(count_physical(src), 3);
}

#[test]
fn count_lines_dispatches_on_mode() {
    let src = b"x = 1\n# note\n\n";
    assert_eq!(count_lines(src, &LineMode::Physical, Some("py")), 3);
    assert_eq!(count_lines(src, &LineMode::Sloc, Some("py")), 1);
    assert_eq!(count_lines(src, &LineMode::Sloc, None), 2);
}

#[test]
fn sloc_never_exceeds_physical() {
    let samples: [&[u8]; 4] = [b"a\n\n// c\n", b"/*\n*/\n", b"x", b""];
    for s in samples.iter() {
        assert!(count_sloc(s, Some("rs")) <= count_physical(s));
    }
}

#[test]
fn lua_and_sql_syntax() {
    // `--[[` begins where `--` does and starts with it: the block opens.
    assert_eq!(count_sloc(b"--[[\nnote\n]]\nprint(1)\n-- c\n", Some("lua")), 1);
    assert_eq!(count_sloc(b"--[[\nnote\n]]\nx = 1\n", Some("lua")), 1);
    assert_eq!(count_sloc(b"x = 1 --[[ a ]] -- b\n--[[ c ]] y = 2\n", Some("lua")), 2);
    assert_eq!(count_sloc(b"-- c\nSELECT 1;\n/* x */\n", Some("sql")), 1);
    assert_eq!(count_sloc(b"% c\nok.\n", Some("erl")), 1);
    assert_eq!(count_sloc(b"\" c\nset x\n", Some("vim")), 1);
    assert_eq!(count_sloc(b"# c\nputs 1\n", Some("R")), 1);
}

#[test]
fn unknown_and_known_extensions() {
    assert!(comment_syntax("rs").is_some());
    assert!(comment_syntax("markdown").is_some());
    assert!(comment_syntax("RS").is_none());
    assert!(comment_syntax("").is_none());
}

#[test]
fn sloc_with_explicit_syntax() {
    let syn = comment_syntax("c").unwrap();
    assert_eq!(count_sloc_with_syntax("a\n/* b\n c */ d\n", syn), 2);
}

#[test]
fn unterminated_block_swallows_rest() {
    assert_eq!(count_sloc(b"x\n/* open\ny\nz\n", Some("rs")), 1);
}

#[test]
fn block_reopened_after_close_stays_open() {
    let syn = comment_syntax("rs").unwrap();
    assert_eq!(count_sloc_with_syntax("/* a */ /* b\nstill\n*/\nfn c() {}\n", syn), 1);
    assert_eq!(count_sloc(b"/*\nx\n*/ /* y\nz */ w\n", Some("rs")), 1);
    assert_eq!(count_sloc(b"a /* b */ c /* d\ne\n*/\n", Some("rs")), 1);
}

#[test]
fn leading_comment_scan_cases() {
    let lua = || comment_syntax("lua").unwrap();
    // a leading opener: the text after its closer decides
    assert_eq!(count_sloc_with_syntax("--[[ a ]] b\n", lua()), 1);
    assert_eq!(count_sloc_with_syntax("--[[ a ]] -- b\n", lua()), 0);
    assert_eq!(count_sloc_with_syntax("--[[ a\n", lua()), 0);
    // a leading line comment, blank text, and anything else
    assert_eq!(count_sloc_with_syntax("-- a\n", lua()), 0);
    assert_eq!(count_sloc_with_syntax("   \t\n", lua()), 0);
    assert_eq!(count_sloc_with_syntax("  b -- a\n", lua()), 1);
}
