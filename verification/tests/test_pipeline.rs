//! Tests of the build pipeline: date extraction, front-matter splitting,
//! markdown conversion, document assembly, and build planning.
use chablo::builder::{build, build_articles, collect_articles, remove_slashes};
use chablo::errors::ChabloError;
use chablo::models::{
    created_datetime, curent_datetime, extract_time, Article, Date, HtmlBody, UpdatedTitle,
};
use chablo::parser::{convert_md_to_html, extract_body, extract_title, parse};

#[test]
fn test_build_ok() {
    let sources: Vec<(String, String)> = vec![];
    let result = build(&sources);

    assert!(result.is_ok());
}

#[test]
fn test_articles_ok() {
    let path = "tests/fixtures/2050_05_30.md";
    let sources = vec![(path.to_string(), String::new())];
    let articles = collect_articles(&sources).unwrap();
    let result = build_articles(&articles);

    assert_eq!(result.len(), 1);
}

#[test]
fn test_collect_article_ok() {
    let path = "tests/fixtures/2050_05_30.md";
    let sources = vec![(path.to_string(), String::new())];
    let result = collect_articles(&sources);

    assert!(result.is_ok());
}

#[test]
fn test_remove_slashes() {
    let title = "2023/01/01";
    let result = remove_slashes(title);

    assert_eq!(result, UpdatedTitle("20230101".to_owned()));
}

#[test]
fn test_parse_year() {
    let before = "tests/fixtures/2050_05_30.md";
    let result = extract_time(before).unwrap();
    let expected_result = vec![2050, 5, 30];

    assert_eq!(result, expected_result);
}

#[test]
fn test_created_datetime() {
    let before = "tests/fixtures/2050/05/30.md";
    let result = created_datetime(before).unwrap();
    let expected_result = Date { year: 2050, month: 5, day: 30 };

    assert_eq!(result, expected_result);
}

#[test]
fn test_parse_ok() {
    let path = "./tests/fixtures/2050_05_30.md";
    let result = parse(path, "");

    assert!(result.is_ok());
}

#[test]
fn test_parse_with_path() {
    let path = "./tests/fixtures/2050_05_30.md";
    let created_time = created_datetime(path).unwrap();
    let result = parse(path, "").unwrap();

    let html = "<p>本文はありません。</p>\n".to_string();
    let html_body = HtmlBody(html);
    let out_path = format!("{}{}", "タイトル無し", ".html");

    let article = Article {
        id: "2050-05-30_タイトル無し".to_string(),
        title: "タイトル無し".to_string(),
        body: html_body,
        date: created_time,
        path: out_path,
    };

    assert_eq!(result, article);
}

#[test]
fn test_convert_md_to_html_ok() {
    let content = "Hello world, this is a ~~complicated~~ *very simple* example.";
    let result = convert_md_to_html(content).unwrap();

    let html =
        "<p>Hello world, this is a <del>complicated</del> <em>very simple</em> example.</p>\n"
            .to_string();

    let expected_html = HtmlBody(html);

    assert_eq!(result.0, expected_html.0);
}

#[test]
fn test_extract_title_ok() {
    let content: &str = "---\ntitle: dummy title\n---\n\nThis is a dummy body.\n\n\n改行されているか。\n\n\noooooooooooooooo\nooooooooooooooooooooooooooooooooooooooooooooooooooooooooooooooooooooooooooooooooooooooooooooooooooooooooooooo\noooooooooooooooooooooooooooooo\n\n\noooooooooooo\n";

    let result = extract_title(content).unwrap();
    let expected_title = "dummy title";

    assert_eq!(result, expected_title);
}

#[test]
fn test_extract_title_with_no_title() {
    let content: &str = "Hello world, this is a ~~complicated~~ *very simple* example.";

    let result = extract_title(content).unwrap();
    let expected_title = "タイトル無し";

    assert_eq!(result, expected_title);
}

#[test]
fn test_extract_title_ok_with_ja() {
    let content: &str = "---\ntitle: ブログシステムを作っていた\n---\n\nThis is a dummy body.\n\n\n改行されているか。\n\n\noooooooooooooooo\nooooooooooooooooooooooooooooooooooooooooooooooooooooooooooooooooooooooooooooooooooooooooooooooooooooooooooooo\noooooooooooooooooooooooooooooo\n\n\noooooooooooo\n";

    let result = extract_title(content).unwrap();
    let expected_title = "ブログシステムを作っていた";

    assert_eq!(result, expected_title);
}

#[test]
fn test_extract_body_ok() {
    let content: &str = "---\ntitle: dummy title\n---This is a dummy body.";

    let result = extract_body(content).unwrap();
    let expected_body = "This is a dummy body.";

    assert_eq!(result, expected_body);
}

#[test]
fn test_extract_body_with_different_format() {
    let content: &str = "Hello world, this is a ~~complicated~~ *very simple* example.";

    let result = extract_body(content).unwrap();
    let expected_body = "Hello world, this is a ~~complicated~~ *very simple* example.";

    assert_eq!(result, expected_body);
}

#[test]
fn test_extract_body_with_no_body() {
    let content: &str = "---\ntitle: dummy title\n---";

    let result = extract_body(content).unwrap();
    let expected_body = "本文はありません。";

    assert_eq!(result, expected_body);
}

#[test]
fn test_extract_body_with_empty_contents() {
    let content: &str = "";

    let result = extract_body(content).unwrap();
    let expected_body = "本文はありません。";

    assert_eq!(result, expected_body);
}

#[test]
fn test_extract_body_with_no_title() {
    let content: &str = "Hello world!!!!!!!!";

    let result = extract_body(content).unwrap();
    let expected_body = "Hello world!!!!!!!!";

    assert_eq!(result, expected_body);
}

#[test]
fn test_front_matter_round_trip() {
    let content = "---\ntitle: X\n---\nBODY";

    let title = extract_title(content).unwrap();
    assert_eq!(title, "X");

    let article = parse("2024_01_02.md", content).unwrap();
    assert_eq!(article.title, "X");
    assert_eq!(article.body.0, "<p>BODY</p>\n");
}

#[test]
fn test_extract_title_strips_slashes() {
    let content = "---\ntitle: 2023/01/01\n---\nBODY";

    let result = extract_title(content).unwrap();

    assert_eq!(result, "20230101");
}

#[test]
fn test_extract_title_unclosed_front_matter_is_placeholder() {
    let content = "---\ntitle: X";

    let result = extract_title(content).unwrap();

    assert_eq!(result, "タイトル無し");
}

#[test]
fn test_extract_title_missing_key_is_error() {
    let content = "---\nno key here\n---\nBODY";

    let result = extract_title(content);

    assert_eq!(result, Err(ChabloError::ExtractTitleError));
}

#[test]
fn test_extract_body_too_many_segments_is_error() {
    let content = "a---b---c---d";

    let result = extract_body(content);

    assert_eq!(result, Err(ChabloError::MatchError));
}

#[test]
fn test_created_datetime_rejects_month_13() {
    let result = created_datetime("diary/2023_13_01.md");

    assert!(result.is_none());
}

#[test]
fn test_created_datetime_rejects_day_32() {
    let result = created_datetime("diary/2023_01_32.md");

    assert!(result.is_none());
}

#[test]
fn test_created_datetime_accepts_leap_day() {
    let result = created_datetime("diary/2024_02_29.md");

    assert_eq!(result, Some(Date { year: 2024, month: 2, day: 29 }));
}

#[test]
fn test_created_datetime_rejects_leap_day_off_year() {
    let result = created_datetime("diary/2023_02_29.md");

    assert!(result.is_none());
}

#[test]
fn test_created_datetime_needs_three_groups() {
    let result = created_datetime("diary/2023_01.md");

    assert!(result.is_none());
}

#[test]
fn test_extract_time_overflow_is_none() {
    let result = extract_time("diary/99999999999_01_01.md");

    assert!(result.is_none());
}

#[test]
fn test_parse_without_date_is_error() {
    let result = parse("diary/nodate.md", "hello");

    assert_eq!(result, Err(ChabloError::DateExtractionError));
}

#[test]
fn test_date_format_pads_with_zeros() {
    let date = Date { year: 5, month: 1, day: 2 };

    assert_eq!(date.format(), "0005-01-02");
}

#[test]
fn test_error_messages() {
    assert_eq!(ChabloError::MatchError.message(), "Failed to match the pattern");
    assert_eq!(ChabloError::ParseIntError.message(), "Failed to parse Int");
    assert_eq!(ChabloError::ExtractTitleError.message(), "Failed to extract the title");
    assert_eq!(
        ChabloError::DateExtractionError.message(),
        "Failed to extract a date from the path"
    );
}

#[test]
fn test_curent_datetime_is_in_range() {
    let date = curent_datetime();

    assert!((1..=12).contains(&date.month));
    assert!((1..=31).contains(&date.day));
}

#[test]
fn test_build_articles_sanitizes_path() {
    let article = Article {
        id: "2023-01-01_2023/01/01".to_string(),
        title: "2023/01/01".to_string(),
        body: HtmlBody("<p>x</p>\n".to_string()),
        date: Date { year: 2023, month: 1, day: 1 },
        path: "20230101.html".to_string(),
    };
    let paths = build_articles(&vec![article]);

    assert_eq!(paths, vec!["public/20230101.html".to_string()]);
}

#[test]
fn test_collect_articles_reverses_ascending_order() {
    let sources = vec![
        ("diary/2023_01_01.md".to_string(), String::new()),
        ("diary/2023_01_02.md".to_string(), String::new()),
        ("diary/2023_01_03.md".to_string(), String::new()),
    ];
    let articles = collect_articles(&sources).unwrap();

    assert_eq!(articles.len(), 3);
    assert_eq!(articles[0].date, Date { year: 2023, month: 1, day: 3 });
    assert_eq!(articles[1].date, Date { year: 2023, month: 1, day: 2 });
    assert_eq!(articles[2].date, Date { year: 2023, month: 1, day: 1 });
}

#[test]
fn test_collect_articles_fails_fast() {
    let sources = vec![
        ("diary/2023_13_01.md".to_string(), String::new()),
        ("diary/2023_01_02.md".to_string(), String::new()),
    ];
    let result = collect_articles(&sources);

    assert_eq!(result, Err(ChabloError::DateExtractionError));
}

#[test]
fn test_build_plans_index_page() {
    let sources = vec![("diary/2023_05_30.md".to_string(), String::new())];
    let plan = build(&sources).unwrap();

    assert_eq!(plan.index_path, "public/index.html");
    assert_eq!(plan.toppage.articles.len(), 1);
    assert_eq!(plan.article_paths, vec!["public/タイトル無し.html".to_string()]);
}

#[test]
fn test_build_twice_gives_equal_plans() {
    let sources = vec![
        ("diary/2023_05_30.md".to_string(), "---\ntitle: a\n---\nbody".to_string()),
        ("diary/2023_05_31.md".to_string(), String::new()),
    ];
    let first = build(&sources).unwrap();
    let second = build(&sources).unwrap();

    assert_eq!(first.toppage.articles, second.toppage.articles);
    assert_eq!(first.article_paths, second.article_paths);
    assert_eq!(first.index_path, second.index_path);
}
