//! From one markdown source to one document record: front-matter
//! splitting, markdown conversion, and assembly.
use vstd::prelude::*;

use crate::errors::ChabloError;
use crate::models::{date_chars, spec_created_date, created_datetime, Article, HtmlBody};
use crate::text::{
    lemma_split_by_len, push_char, remove_slash_chars, split_by, split_str, strip_slashes,
    trim_str, trimmed,
};

verus! {

/// What the markdown converter returns for a fragment; the result is a
/// function of the fragment alone.
pub uninterp spec fn html_of(md: Seq<char>) -> Seq<char>;

/// Relies on pulldown_cmark's Parser and html::push_html: converts
/// markdown to an HTML fragment with the strikethrough extension
/// enabled; the output depends on the input text alone.
#[verifier::external_body]
fn md_to_html(md: &str) -> (r: String)
    ensures
        r@ == html_of(md@),
{
    let mut options = pulldown_cmark::Options::empty();
    options.insert(pulldown_cmark::Options::ENABLE_STRIKETHROUGH);
    let parser = pulldown_cmark::Parser::new_ext(md, options);
    let mut html_output = String::new();
    pulldown_cmark::html::push_html(&mut html_output, parser);
    html_output
}

/// Converts a markdown body to an HTML fragment.
pub fn convert_md_to_html(md: &str) -> (r: Result<HtmlBody, ChabloError>)
    ensures
        r matches Ok(b) && b.0@ == html_of(md@),
{
    let html_output = md_to_html(md);
    Ok(HtmlBody(html_output))
}

/// The title of a document: the placeholder unless a front-matter block
/// is properly opened and closed; otherwise the trimmed text behind the
/// `title:` key with slashes stripped, or nothing when the key is
/// missing.
pub open spec fn spec_title(content: Seq<char>) -> Option<Seq<char>> {
    let parts = split_by(content, "---"@);
    if parts.len() < 3 {
        Some("タイトル無し"@)
    } else {
        let tparts = split_by(parts[1], "title:"@);
        if tparts.len() < 2 {
            None
        } else {
            Some(strip_slashes(trimmed(tparts[1])))
        }
    }
}

/// Extracts the document title from the raw content.
pub fn extract_title(content: &str) -> (r: Result<String, ChabloError>)
    ensures
        r is Ok <==> spec_title(content@) is Some,
        r matches Ok(t) ==> t@ == spec_title(content@).unwrap(),
        r matches Err(e) ==> e == ChabloError::ExtractTitleError,
{
    proof {
        reveal_strlit("---");
        reveal_strlit("title:");
    }
    let parts = split_str(content, "---");
    if parts.len() < 3 {
        Ok(String::from_str("タイトル無し"))
    } else {
        let tparts = split_str(parts[1].as_str(), "title:");
        if tparts.len() < 2 {
            Err(ChabloError::ExtractTitleError)
        } else {
            let t = trim_str(tparts[1].as_str());
            Ok(remove_slash_chars(t))
        }
    }
}

/// The body of a document, by the number of delimiter-bounded segments:
/// one segment is the whole text, two the part behind the delimiter,
/// three the part behind the closed front-matter block; an empty body
/// degrades to the placeholder, and more segments are no valid document.
pub open spec fn spec_body(content: Seq<char>) -> Option<Seq<char>> {
    let v = split_by(content, "---"@);
    if v.len() == 1 {
        if v[0].len() == 0 {
            Some("本文はありません。"@)
        } else {
            Some(v[0])
        }
    } else if v.len() == 2 {
        Some(v[1])
    } else if v.len() == 3 {
        if v[2].len() == 0 {
            Some("本文はありません。"@)
        } else {
            Some(v[2])
        }
    } else {
        None
    }
}

/// Extracts the markdown body from the raw content.
pub fn extract_body(content: &str) -> (r: Result<String, ChabloError>)
    ensures
        r is Ok <==> spec_body(content@) is Some,
        r matches Ok(b) ==> b@ == spec_body(content@).unwrap(),
        r matches Err(e) ==> e == ChabloError::MatchError,
{
    proof {
        reveal_strlit("---");
    }
    let parts = split_str(content, "---");
    if parts.len() == 1 {
        if parts[0].as_str().is_empty() {
            Ok(String::from_str("本文はありません。"))
        } else {
            Ok(parts[0].clone())
        }
    } else if parts.len() == 2 {
        Ok(parts[1].clone())
    } else if parts.len() == 3 {
        if parts[2].as_str().is_empty() {
            Ok(String::from_str("本文はありません。"))
        } else {
            Ok(parts[2].clone())
        }
    } else {
        proof {
            lemma_split_by_len(content@, "---"@);
        }
        Err(ChabloError::MatchError)
    }
}

/// Every sub-step of building a document from `path` and `content`
/// succeeds.
pub open spec fn parse_ok(path: Seq<char>, content: Seq<char>) -> bool {
    &&& spec_created_date(path) is Some
    &&& spec_title(content) is Some
    &&& spec_body(content) is Some
}

/// The error of the first failing sub-step: the date comes first, then
/// the title, then the body.
pub open spec fn parse_err(path: Seq<char>, content: Seq<char>) -> ChabloError {
    if spec_created_date(path) is None {
        ChabloError::DateExtractionError
    } else if spec_title(content) is None {
        ChabloError::ExtractTitleError
    } else {
        ChabloError::MatchError
    }
}

/// `a` is exactly the document that `path` and `content` describe.
pub open spec fn article_matches(a: Article, path: Seq<char>, content: Seq<char>) -> bool {
    &&& parse_ok(path, content)
    &&& {
        let date = spec_created_date(path).unwrap();
        let title = spec_title(content).unwrap();
        let body = spec_body(content).unwrap();
        &&& a.id@ == date_chars(date) + seq!['_'] + title
        &&& a.title@ == title
        &&& a.body.0@ == html_of(body)
        &&& a.date == date
        &&& a.path@ == title + ".html"@
    }
}

/// Builds the document record for one source file: date from the path,
/// title and body from the content, body rendered to HTML. The first
/// failing sub-step aborts the build of this document.
pub fn parse(path: &str, content: &str) -> (r: Result<Article, ChabloError>)
    ensures
        r is Ok <==> parse_ok(path@, content@),
        r matches Ok(a) ==> article_matches(a, path@, content@),
        r matches Err(e) ==> e == parse_err(path@, content@),
{
    let created_time = match created_datetime(path) {
        Some(d) => d,
        None => {
            return Err(ChabloError::DateExtractionError);
        },
    };
    let title = match extract_title(content) {
        Ok(t) => t,
        Err(e) => {
            return Err(e);
        },
    };
    let body = match extract_body(content) {
        Ok(b) => b,
        Err(e) => {
            return Err(e);
        },
    };
    let html_body = match convert_md_to_html(body.as_str()) {
        Ok(h) => h,
        Err(e) => {
            return Err(e);
        },
    };
    let mut id = created_time.format();
    push_char(&mut id, '_');
    id.append(title.as_str());
    proof {
        assert(id@ =~= date_chars(created_time) + seq!['_'] + title@);
    }
    let out_path = title.clone().concat(".html");
    let article = Article { id, title, body: html_body, date: created_time, path: out_path };
    Ok(article)
}

} // verus!
