//! The answer of the search service, as far as the client shows it: the
//! text, and the sources it cites.

use crate::color::{dimmed, dimmed_text};
use crate::mode::{label, label_text};
use crate::store::present;
use crate::text::{
    chars_of, decimal, decimal_string, find, first_occurrence, same_text, skip_whitespace,
    trim_start,
};
use vstd::prelude::*;
use vstd::string::*;
use vstd::utf8::encode_utf8;

verus! {

/// What the client reads of an answer.
///
/// `content` is the text of the first choice, if it is there and is text.
/// `citations` is the list of sources, if there is such a list; an item of
/// it that is not text is `None`.
#[derive(Clone, Debug, PartialEq, Eq)]
pub struct Response {
    pub content: Option<String>,
    pub citations: Option<Vec<Option<String>>>,
}

/// What a `Response` is, mathematically.
pub struct ResponseModel {
    pub content: Option<Seq<char>>,
    pub citations: Option<Seq<Option<Seq<char>>>>,
}

impl View for Response {
    type V = ResponseModel;

    open spec fn view(&self) -> ResponseModel {
        ResponseModel {
            content: self.content.deep_view(),
            citations: self.citations.deep_view(),
        }
    }
}

/// What is printed for an answer: a heading and the sources for the error
/// stream, the body for standard output.
#[derive(Clone, Debug, PartialEq, Eq)]
pub struct ResponseReport {
    pub heading: String,
    pub body: String,
    pub sources: Vec<String>,
}

/// What a `ResponseReport` is, mathematically.
pub struct ResponseReportModel {
    pub heading: Seq<char>,
    pub body: Seq<char>,
    pub sources: Seq<Seq<char>>,
}

impl View for ResponseReport {
    type V = ResponseReportModel;

    open spec fn view(&self) -> ResponseReportModel {
        ResponseReportModel {
            heading: self.heading@,
            body: self.body@,
            sources: self.sources.deep_view(),
        }
    }
}

/// The tag that closes the reasoning part of an answer.
pub open spec fn close_tag() -> Seq<char> {
    "</think>"@
}

/// `text` without its reasoning part: what follows the first closing tag,
/// less leading whitespace; all of `text` when there is no such tag.
pub open spec fn stripped(text: Seq<char>) -> Seq<char> {
    match first_occurrence(text, close_tag()) {
        Some(i) => trim_start(text.skip(i + close_tag().len())),
        None => text,
    }
}

/// The sources that are text, in their order.
pub open spec fn citations_of(r: ResponseModel) -> Seq<Seq<char>> {
    match r.citations {
        Some(items) => present(items),
        None => Seq::empty(),
    }
}

/// The body shown when the answer holds no text.
pub open spec fn no_content_text() -> Seq<char> {
    "No content in response"@
}

/// The heading of an answer: the mode's label in brackets, dimmed.
pub open spec fn heading_text(mode: Seq<char>) -> Seq<char> {
    dimmed_text("["@ + label_text(mode) + "]"@)
}

/// The text shown for an answer; in reason mode the reasoning part is left out.
pub open spec fn body_text(mode: Seq<char>, r: ResponseModel) -> Seq<char> {
    let content = match r.content {
        Some(c) => c,
        None => no_content_text(),
    };
    if mode == "reason"@ {
        stripped(content)
    } else {
        content
    }
}

/// The line for the source at position `i`, counted from zero.
pub open spec fn source_line(i: nat, url: Seq<char>) -> Seq<char> {
    "  "@ + decimal(i + 1) + ". "@ + dimmed_text(url)
}

/// The lines that list the sources: none when there is no source, else an
/// empty line, a title, and a numbered line for each source.
pub open spec fn source_lines(urls: Seq<Seq<char>>) -> Seq<Seq<char>> {
    if urls.len() == 0 {
        Seq::empty()
    } else {
        seq![Seq::empty(), dimmed_text("Sources:"@)] + Seq::new(
            urls.len(),
            |i: int| source_line(i as nat, urls[i]),
        )
    }
}

/// What is printed for an answer.
pub open spec fn response_report(mode: Seq<char>, r: ResponseModel) -> ResponseReportModel {
    ResponseReportModel {
        heading: heading_text(mode),
        body: body_text(mode, r),
        sources: source_lines(citations_of(r)),
    }
}

/// Length of the answer's text in bytes, as it is logged: zero without text.
pub open spec fn logged_len(r: ResponseModel) -> nat {
    match r.content {
        Some(c) => encode_utf8(c).len(),
        None => 0,
    }
}

/// The length that is logged for an answer.
pub fn response_len(response: &Response) -> (n: usize)
    ensures
        n == logged_len(response@),
{
    match &response.content {
        Some(c) => c.as_str().as_bytes().len(),
        None => 0,
    }
}

/// Strips the reasoning part from the output of a reasoning model.
pub fn strip_thinking(text: &str) -> (out: &str)
    ensures
        out@ == stripped(text@),
{
    let chars = chars_of(text);
    let tag = chars_of("</think>");
    let len = chars.len();
    match find(&chars, &tag) {
        Some(i) => {
            let start = i + tag.len();
            let blank = skip_whitespace(&chars, start);
            assert(chars@.skip(start as int).skip(blank as int) == chars@.subrange(
                start + blank,
                chars@.len() as int,
            ));
            text.substring_char(start + blank, len)
        },
        None => text,
    }
}

/// The sources cited by an answer.
pub fn extract_citations(response: &Response) -> (urls: Vec<String>)
    ensures
        urls.deep_view() == citations_of(response@),
{
    let mut urls: Vec<String> = Vec::new();
    match &response.citations {
        Some(items) => {
            let mut i: usize = 0;
            assert(items.deep_view().take(0) =~= Seq::empty());
            while i < items.len()
                invariant
                    i <= items.len(),
                    urls.deep_view() == present(items.deep_view().take(i as int)),
                decreases items.len() - i,
            {
                let ghost before = urls.deep_view();
                proof {
                    let all = items.deep_view();
                    assert(all.take(i + 1).drop_last() == all.take(i as int));
                    assert(all.take(i + 1).last() == items@[i as int].deep_view());
                }
                match &items[i] {
                    Some(url) => {
                        urls.push(url.clone());
                        assert(urls.deep_view() =~= before.push(url@));
                    },
                    None => {},
                }
                i += 1;
            }
            assert(items.deep_view().take(items@.len() as int) == items.deep_view());
        },
        None => {
            assert(urls.deep_view() =~= Seq::empty());
        },
    }
    urls
}

fn format_source(i: usize, url: &str) -> (out: String)
    requires
        i < usize::MAX,
    ensures
        out@ == source_line(i as nat, url@),
{
    let mut out = "  ".to_owned();
    out.append(decimal_string((i + 1) as u128).as_str());
    out.append(". ");
    out.append(dimmed(url).as_str());
    out
}

/// What the client prints for the answer to a query made in `mode`.
pub fn display_response(mode: &str, response: &Response) -> (report: ResponseReport)
    ensures
        report@ == response_report(mode@, response@),
{
    let mut plain = "[".to_owned();
    plain.append(label(mode).as_str());
    plain.append("]");
    let heading = dimmed(plain.as_str());
    let content: &str = match &response.content {
        Some(c) => c.as_str(),
        None => "No content in response",
    };
    let body = if same_text(mode, "reason") {
        strip_thinking(content).to_owned()
    } else {
        content.to_owned()
    };
    let urls = extract_citations(response);
    let mut sources: Vec<String> = Vec::new();
    if urls.len() > 0 {
        sources.push(String::new());
        sources.push(dimmed("Sources:"));
        let mut i: usize = 0;
        while i < urls.len()
            invariant
                i <= urls.len(),
                sources@.len() == 2 + i,
                sources@[0]@ == Seq::<char>::empty(),
                sources@[1]@ == dimmed_text("Sources:"@),
                forall|k: int|
                    0 <= k < i ==> (#[trigger] sources@[2 + k])@ == source_line(k as nat, urls@[k]@),
            decreases urls.len() - i,
        {
            sources.push(format_source(i, urls[i].as_str()));
            i += 1;
        }
    }
    let report = ResponseReport { heading, body, sources };
    proof {
        let want = source_lines(citations_of(response@));
        let got = report@.sources;
        assert(got.len() == want.len());
        assert forall|k: int| 0 <= k < want.len() implies got[k] == want[k] by {
            assert(got[k] == report.sources@[k]@);
            if k >= 2 {
                assert(report.sources@[2 + (k - 2)]@ == source_line(
                    (k - 2) as nat,
                    urls@[k - 2]@,
                ));
                assert(urls.deep_view()[k - 2] == urls@[k - 2]@);
            }
        }
        assert(got =~= want);
    }
    report
}

} // verus!
