use sheat::config::{build_config, parse_config_file, CliOptions, Config, FileConfig, Format, LineMode};
use sheat::hotspot::HotspotKind;

fn cli() -> CliOptions<String, f64> {
    CliOptions {
        target: None,
        format: None,
        output: None,
        ignore: Vec::new(),
        include_hidden: false,
        line_mode: None,
        min_ratio: None,
        max_depth: None,
    }
}

#[test]
fn parse_basic_config() {
    let parsed = parse_config_file("target = .\nformat = json\nmin-ratio = 2.5\nmax-depth = 4\n");
    assert!(parsed.error.is_none());
    let cfg = parsed.config;
    assert_eq!(cfg.target, Some(".".to_string()));
    assert!(matches!(cfg.format, Some(Format::Json)));
    assert_eq!(cfg.min_ratio.map(|r| r.parse::<f64>().unwrap()), Some(2.5));
    assert_eq!(cfg.max_depth, Some(4));
}

#[test]
fn parse_repeated_ignore() {
    let parsed = parse_config_file("ignore = node_modules\nignore = dist\n");
    assert!(parsed.error.is_none());
    assert_eq!(parsed.config.ignore, vec!["node_modules", "dist"]);
}

#[test]
fn parse_unknown_key_fails() {
    let result = parse_config_file("unknown-key = value\n");
    assert!(result.error.is_some());
    assert!(result.error.unwrap().message.contains("unknown configuration key"));
}

#[test]
fn parse_comments_and_blank_lines() {
    let parsed = parse_config_file("# comment\n\nformat = html\n");
    assert!(parsed.error.is_none());
    assert!(matches!(parsed.config.format, Some(Format::Html)));
}

// ---- further cases ----

#[test]
fn parse_errors_name_their_line() {
    let e = parse_config_file("format = html\nno equals sign\n").error.unwrap();
    assert_eq!(e.line, 1);
    assert_eq!(e.message, "line 2: invalid config line: no equals sign");
    let e = parse_config_file("format = xml\n").error.unwrap();
    assert_eq!(e.message, "line 1: unknown format: xml");
    let e = parse_config_file("include-hidden = yes\n").error.unwrap();
    assert_eq!(e.message, "line 1: invalid boolean: yes");
    let e = parse_config_file("line-mode = all\n").error.unwrap();
    assert_eq!(e.message, "line 1: unknown line-mode: all");
    let e = parse_config_file("\n\nmax-depth = -1\n").error.unwrap();
    assert_eq!(e.line, 2);
    assert_eq!(e.message, "line 3: invalid integer for max-depth: -1");
    let e = parse_config_file("colour = red\n").error.unwrap();
    assert_eq!(e.message, "unknown configuration key: colour");
}

#[test]
fn parse_stops_at_first_error_keeping_earlier_settings() {
    let parsed = parse_config_file("min-ratio = 2\nformat = pdf\nmin-ratio = 7\nformat = html\n");
    assert_eq!(parsed.error.unwrap().line, 1);
    assert_eq!(parsed.ratio_lines.len(), 1);
    assert_eq!(parsed.ratio_lines[0].line, 1);
    assert_eq!(parsed.ratio_lines[0].value, "2");
    assert_eq!(parsed.config.format, None);
}

#[test]
fn parse_all_keys() {
    let text = "  target =  src \noutput=out.md\ninclude-hidden = true\nline-mode = sloc\n\
max-depth = +12\nmin-ratio = 1.5\r\n# done\n";
    let parsed = parse_config_file(text);
    assert!(parsed.error.is_none());
    let c = parsed.config;
    assert_eq!(c.target, Some("src".to_string()));
    assert_eq!(c.output, Some("out.md".to_string()));
    assert_eq!(c.include_hidden, Some(true));
    assert_eq!(c.line_mode, Some(LineMode::Sloc));
    assert_eq!(c.max_depth, Some(12));
    assert_eq!(c.min_ratio, Some("1.5".to_string()));
    assert_eq!(parsed.ratio_lines[0].line, 6);
}

#[test]
fn max_depth_overflow_is_an_error() {
    let e = parse_config_file("max-depth = 99999999999999999999999\n").error.unwrap();
    assert!(e.message.starts_with("line 1: invalid integer for max-depth"));
}

#[test]
fn format_and_line_mode_names() {
    assert_eq!(Format::parse("markdown"), Ok(Format::Markdown));
    assert_eq!("json".parse::<Format>(), Ok(Format::Json));
    assert_eq!(Format::parse("xml"), Err("unknown format: xml".to_string()));
    assert_eq!(LineMode::parse("physical"), Ok(LineMode::Physical));
    assert_eq!("sloc".parse::<LineMode>(), Ok(LineMode::Sloc));
    assert_eq!(LineMode::parse("Sloc"), Err("unknown line-mode: Sloc".to_string()));
}

#[test]
fn build_config_defaults() {
    let mut c = cli();
    c.target = Some("src".to_string());
    let cfg = build_config(c, None, 3.0).unwrap();
    assert_eq!(cfg.target, "src");
    assert_eq!(cfg.format, Format::Markdown);
    assert_eq!(cfg.line_mode, LineMode::Physical);
    assert_eq!(cfg.min_ratio, 3.0);
    assert_eq!(cfg.max_depth, None);
    assert!(!cfg.include_hidden);
    assert!(cfg.ignore.is_empty());
    assert_eq!(cfg.output, None);
}

#[test]
fn command_line_overrides_file() {
    let file: FileConfig<String, f64> = FileConfig {
        target: Some("from_file".to_string()),
        format: Some(Format::Html),
        output: Some("file.html".to_string()),
        ignore: vec!["dist".to_string()],
        include_hidden: Some(true),
        line_mode: Some(LineMode::Sloc),
        min_ratio: Some(100.0),
        max_depth: Some(2),
    };
    let mut c = cli();
    c.target = Some("cli".to_string());
    c.format = Some("json".to_string());
    c.ignore = vec!["vendor".to_string()];
    c.min_ratio = Some(1.5);
    let cfg = build_config(c, Some(file.clone()), 3.0).unwrap();
    assert_eq!(cfg.target, "cli");
    assert_eq!(cfg.format, Format::Json);
    assert_eq!(cfg.line_mode, LineMode::Sloc);
    assert_eq!(cfg.min_ratio, 1.5);
    assert_eq!(cfg.max_depth, Some(2));
    assert!(cfg.include_hidden);
    assert_eq!(cfg.ignore, vec!["dist", "vendor"]);
    assert_eq!(cfg.output, Some("file.html".to_string()));
    let cfg = build_config(cli(), Some(file), 3.0).unwrap();
    assert_eq!(cfg.target, "from_file");
    assert_eq!(cfg.min_ratio, 100.0);
}

#[test]
fn build_config_errors() {
    assert_eq!(
        build_config(cli(), None, 3.0).unwrap_err(),
        "missing target: specify a directory or file to analyze"
    );
    let mut c = cli();
    c.target = Some(".".to_string());
    c.format = Some("xml".to_string());
    c.line_mode = Some("bad".to_string());
    assert_eq!(build_config(c, None, 3.0).unwrap_err(), "unknown format: xml");
    let mut c = cli();
    c.target = Some(".".to_string());
    c.line_mode = Some("bad".to_string());
    assert_eq!(build_config(c, None, 3.0).unwrap_err(), "unknown line-mode: bad");
}

#[test]
fn config_with_defaults() {
    let c: Config<String, f64> = Config::with_defaults(".".to_string(), 3.0);
    assert_eq!(c.target, ".");
    assert_eq!(c.format, Format::Markdown);
    assert!(c.output.is_none());
    assert!(c.ignore.is_empty());
    assert!(!c.include_hidden);
    assert_eq!(c.line_mode, LineMode::Physical);
    assert_eq!(c.min_ratio, 3.0);
    assert!(c.max_depth.is_none());
}

#[test]
fn names_parse_back() {
    for f in [Format::Markdown, Format::Json, Format::Html] {
        assert_eq!(Format::parse(f.name()), Ok(f));
    }
    for m in [LineMode::Physical, LineMode::Sloc] {
        assert_eq!(LineMode::parse(m.name()), Ok(m));
    }
    assert_eq!(Format::Json.name(), "json");
    assert_eq!(LineMode::Sloc.name(), "sloc");
    assert_eq!(HotspotKind::Directory.name(), "directory");
    assert_eq!(HotspotKind::File.name(), "file");
}
