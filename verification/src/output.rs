//! Parsing of the structured XML replies of the language model.
//!
//! A reply is one of four documents, told apart by the root tag:
//! `<commit>` (`summary`, `message`, `body`?), `<goto>` (`summary`,
//! `target`), `<pack>` (`summary`, `commits`?, `message`, `body`?) and
//! `<reply>` (`message`).  Tag names are matched without regard to case;
//! only the direct children of the root are read as fields; text around the
//! document is ignored, and a document cut short still yields the fields that
//! were complete before the break.

use crate::strmap::{lookup, map_of, opt_view, StrMap};
use crate::text::{
    concat, contains, contains_spec, is_white_space, lemma_trim_ends, push_str, split_on, split_spec,
    str_eq, trim, trim_spec,
    views,
};
use crate::xml::{token_views, xml_tokens, xml_tokens_spec, XmlToken, XmlTokenView};
use vstd::prelude::*;

verus! {

broadcast use vstd::string::group_string_axioms;

// ---------------------------------------------------------------------------
// Types
// ---------------------------------------------------------------------------

/// A parsed reply.
#[derive(Debug)]
pub enum LlmOutput {
    Commit(CommitOutput),
    Goto(GotoOutput),
    Pack(PackOutput),
    Reply(ReplyOutput),
}

/// A `<commit>` reply: the commit message the model proposes.
#[derive(Debug)]
pub struct CommitOutput {
    pub summary: Option<String>,
    pub message: String,
    pub body: Option<String>,
}

/// A `<goto>` reply: the revision to check out.
#[derive(Debug)]
pub struct GotoOutput {
    pub summary: String,
    pub target: String,
}

/// A `<pack>` reply: the commits to combine and the combined message.
#[derive(Debug)]
pub struct PackOutput {
    pub summary: String,
    pub commits: Vec<String>,
    pub message: String,
    pub body: Option<String>,
}

/// A `<reply>` reply: the model declines and explains why.
#[derive(Debug)]
pub struct ReplyOutput {
    pub message: String,
}

/// The kind of a reply.
#[derive(Debug, Clone, Copy, PartialEq, Eq, Structural)]
pub enum ResponseKind {
    Commit,
    Goto,
    Pack,
    Reply,
}

/// A field that a reply must have.
#[derive(Debug, Clone, Copy, PartialEq, Eq, Structural)]
pub enum ResponseField {
    Summary,
    Message,
    Target,
}

/// Why a reply could not be parsed.
#[derive(Debug, Clone, PartialEq, Eq)]
pub enum OutputError {
    /// The XML is malformed before any field was read; `message` is the
    /// reader's description of the error.
    XmlSyntax { message: String },
    /// No tag opens before the end of the input or the first error.
    RootTagNotFound,
    /// The root tag is none of the four kinds and no kind's opening tag
    /// occurs in the text.
    UnknownRootTag,
    /// A required field is absent.
    MissingField { response: ResponseKind, field: ResponseField },
}

/// The view of an [`OutputError`].
pub enum OutputErrorView {
    XmlSyntax { message: Seq<char> },
    RootTagNotFound,
    UnknownRootTag,
    MissingField { response: ResponseKind, field: ResponseField },
}

impl View for OutputError {
    type V = OutputErrorView;

    open spec fn view(&self) -> OutputErrorView {
        match self {
            OutputError::XmlSyntax { message } => OutputErrorView::XmlSyntax { message: message@ },
            OutputError::RootTagNotFound => OutputErrorView::RootTagNotFound,
            OutputError::UnknownRootTag => OutputErrorView::UnknownRootTag,
            OutputError::MissingField { response, field } => OutputErrorView::MissingField {
                response: *response,
                field: *field,
            },
        }
    }
}

/// The view of a parsed reply.
#[allow(inconsistent_fields)]
pub enum LlmOutputView {
    Commit { summary: Option<Seq<char>>, message: Seq<char>, body: Option<Seq<char>> },
    Goto { summary: Seq<char>, target: Seq<char> },
    Pack {
        summary: Seq<char>,
        commits: Seq<Seq<char>>,
        message: Seq<char>,
        body: Option<Seq<char>>,
    },
    Reply { message: Seq<char> },
}

impl View for LlmOutput {
    type V = LlmOutputView;

    open spec fn view(&self) -> LlmOutputView {
        match self {
            LlmOutput::Commit(c) => LlmOutputView::Commit {
                summary: opt_view(c.summary),
                message: c.message@,
                body: opt_view(c.body),
            },
            LlmOutput::Goto(g) => LlmOutputView::Goto { summary: g.summary@, target: g.target@ },
            LlmOutput::Pack(p) => LlmOutputView::Pack {
                summary: p.summary@,
                commits: views(p.commits@),
                message: p.message@,
                body: opt_view(p.body),
            },
            LlmOutput::Reply(r) => LlmOutputView::Reply { message: r.message@ },
        }
    }
}

/// The view of a parse result.
pub open spec fn result_view(r: Result<LlmOutput, OutputError>) -> Result<
    LlmOutputView,
    OutputErrorView,
> {
    match r {
        Ok(o) => Ok(o@),
        Err(e) => Err(e@),
    }
}

// ---------------------------------------------------------------------------
// Specification
// ---------------------------------------------------------------------------

/// Whether a token ends the reading (end of input or an error).
pub open spec fn is_final_token(t: XmlTokenView) -> bool {
    t is Eof || t is Failure
}

/// The index of the first final token, or the number of tokens.
pub open spec fn first_final(toks: Seq<XmlTokenView>) -> int
    decreases toks.len(),
{
    if toks.len() == 0 {
        0
    } else if is_final_token(toks[0]) {
        0
    } else {
        1 + first_final(toks.drop_first())
    }
}

/// The name of the first opening or self-closing tag before the first final token.
pub open spec fn root_tag_spec(toks: Seq<XmlTokenView>) -> Option<Seq<char>>
    decreases toks.len(),
{
    if toks.len() == 0 {
        None
    } else {
        match toks[0] {
            XmlTokenView::Start(n) => Some(n),
            XmlTokenView::Empty(n) => Some(n),
            XmlTokenView::Eof => None,
            XmlTokenView::Failure(_) => None,
            _ => root_tag_spec(toks.drop_first()),
        }
    }
}

/// The state of the field scan: the fields read so far, the open tags and
/// the text gathered since the last opening tag.
pub struct FieldScan {
    pub fields: Map<Seq<char>, Seq<char>>,
    pub stack: Seq<Seq<char>>,
    pub text: Seq<char>,
}

/// The scan before any token.
pub open spec fn scan_start() -> FieldScan {
    FieldScan { fields: Map::empty(), stack: seq![], text: seq![] }
}

/// One step of the field scan.  An opening tag is pushed and the text is
/// cleared; text inside some tag is gathered; a closing tag that matches the
/// innermost open tag pops it, and when that tag was a direct child of the
/// root its gathered text becomes the field's value.
pub open spec fn scan_step(st: FieldScan, t: XmlTokenView) -> FieldScan {
    match t {
        XmlTokenView::Start(n) => FieldScan { fields: st.fields, stack: st.stack.push(n), text: seq![] },
        XmlTokenView::Text(x) => if st.stack.len() > 0 {
            FieldScan { fields: st.fields, stack: st.stack, text: st.text + x }
        } else {
            st
        },
        XmlTokenView::End(n) => if st.stack.len() > 0 && st.stack.last() == n {
            FieldScan {
                fields: if st.stack.len() == 2 {
                    st.fields.insert(n, st.text)
                } else {
                    st.fields
                },
                stack: st.stack.drop_last(),
                text: st.text,
            }
        } else {
            st
        },
        _ => st,
    }
}

/// The field scan after some tokens.
pub open spec fn scan_tokens(toks: Seq<XmlTokenView>) -> FieldScan
    decreases toks.len(),
{
    if toks.len() == 0 {
        scan_start()
    } else {
        scan_step(scan_tokens(toks.drop_last()), toks.last())
    }
}

/// The fields of a reply: the scan up to the first final token.  An error
/// token met before any field was read makes the reply malformed.
pub open spec fn fields_spec(toks: Seq<XmlTokenView>) -> Result<
    Map<Seq<char>, Seq<char>>,
    OutputErrorView,
> {
    let k = first_final(toks);
    let st = scan_tokens(toks.take(k));
    if k < toks.len() && st.fields == Map::<Seq<char>, Seq<char>>::empty() {
        match toks[k] {
            XmlTokenView::Failure(message) => Err(OutputErrorView::XmlSyntax { message }),
            _ => Ok(st.fields),
        }
    } else {
        Ok(st.fields)
    }
}

/// The trimmed, non-empty items of a list of pieces, in order.
pub open spec fn nonempty_trimmed(pieces: Seq<Seq<char>>) -> Seq<Seq<char>>
    decreases pieces.len(),
{
    if pieces.len() == 0 {
        seq![]
    } else {
        let rest = nonempty_trimmed(pieces.drop_last());
        let t = trim_spec(pieces.last());
        if t.len() > 0 {
            rest.push(t)
        } else {
            rest
        }
    }
}

/// The commit identifiers of a comma-separated list: the trimmed, non-empty items.
pub open spec fn commit_list_spec(s: Seq<char>) -> Seq<Seq<char>> {
    nonempty_trimmed(split_spec(s, ','))
}

/// The kind of reply for a root tag: the tag itself when it names a kind,
/// otherwise the first kind whose opening tag occurs in the text.
pub open spec fn response_kind_spec(xml: Seq<char>, root: Seq<char>) -> Option<ResponseKind> {
    if root == "commit"@ {
        Some(ResponseKind::Commit)
    } else if root == "goto"@ {
        Some(ResponseKind::Goto)
    } else if root == "pack"@ {
        Some(ResponseKind::Pack)
    } else if root == "reply"@ {
        Some(ResponseKind::Reply)
    } else if contains_spec(xml, "<commit>"@) {
        Some(ResponseKind::Commit)
    } else if contains_spec(xml, "<goto>"@) {
        Some(ResponseKind::Goto)
    } else if contains_spec(xml, "<pack>"@) {
        Some(ResponseKind::Pack)
    } else if contains_spec(xml, "<reply>"@) {
        Some(ResponseKind::Reply)
    } else {
        None
    }
}

/// The reply of a kind built from its fields; required fields are checked
/// in the order summary, target, message.
pub open spec fn output_from_fields(kind: ResponseKind, m: Map<Seq<char>, Seq<char>>) -> Result<
    LlmOutputView,
    OutputErrorView,
> {
    match kind {
        ResponseKind::Commit => match lookup(m, "summary"@) {
            None => Err(
                OutputErrorView::MissingField {
                    response: ResponseKind::Commit,
                    field: ResponseField::Summary,
                },
            ),
            Some(summary) => match lookup(m, "message"@) {
                Some(message) => Ok(
                    LlmOutputView::Commit { summary: Some(summary), message, body: lookup(m, "body"@) },
                ),
                None => Err(
                    OutputErrorView::MissingField {
                        response: ResponseKind::Commit,
                        field: ResponseField::Message,
                    },
                ),
            },
        },
        ResponseKind::Goto => match lookup(m, "summary"@) {
            None => Err(
                OutputErrorView::MissingField {
                    response: ResponseKind::Goto,
                    field: ResponseField::Summary,
                },
            ),
            Some(summary) => match lookup(m, "target"@) {
                None => Err(
                    OutputErrorView::MissingField {
                        response: ResponseKind::Goto,
                        field: ResponseField::Target,
                    },
                ),
                Some(target) => Ok(LlmOutputView::Goto { summary, target }),
            },
        },
        ResponseKind::Pack => match lookup(m, "summary"@) {
            None => Err(
                OutputErrorView::MissingField {
                    response: ResponseKind::Pack,
                    field: ResponseField::Summary,
                },
            ),
            Some(summary) => match lookup(m, "message"@) {
                None => Err(
                    OutputErrorView::MissingField {
                        response: ResponseKind::Pack,
                        field: ResponseField::Message,
                    },
                ),
                Some(message) => Ok(
                    LlmOutputView::Pack {
                        summary,
                        commits: commit_list_spec(
                            match lookup(m, "commits"@) {
                                Some(c) => c,
                                None => seq![],
                            },
                        ),
                        message,
                        body: lookup(m, "body"@),
                    },
                ),
            },
        },
        ResponseKind::Reply => match lookup(m, "message"@) {
            Some(message) => Ok(LlmOutputView::Reply { message }),
            None => Err(
                OutputErrorView::MissingField {
                    response: ResponseKind::Reply,
                    field: ResponseField::Message,
                },
            ),
        },
    }
}

/// The parse of a reply text with its tokens.
pub open spec fn parse_tokens_spec(xml: Seq<char>, toks: Seq<XmlTokenView>) -> Result<
    LlmOutputView,
    OutputErrorView,
> {
    match root_tag_spec(toks) {
        None => Err(OutputErrorView::RootTagNotFound),
        Some(root) => match response_kind_spec(xml, root) {
            None => Err(OutputErrorView::UnknownRootTag),
            Some(kind) => match fields_spec(toks) {
                Err(e) => Err(e),
                Ok(m) => output_from_fields(kind, m),
            },
        },
    }
}

/// The parse of a reply text.
pub open spec fn parse_xml_output_spec(xml: Seq<char>) -> Result<LlmOutputView, OutputErrorView> {
    parse_tokens_spec(xml, xml_tokens_spec(xml))
}

/// The one-line summary of a reply.
pub open spec fn summary_spec(o: LlmOutputView) -> Seq<char> {
    match o {
        LlmOutputView::Commit { summary, message, .. } => match summary {
            Some(s) => s,
            None => message,
        },
        LlmOutputView::Goto { summary, .. } => summary,
        LlmOutputView::Pack { summary, .. } => summary,
        LlmOutputView::Reply { message } => message,
    }
}

// ---------------------------------------------------------------------------
// Lemmas
// ---------------------------------------------------------------------------

/// The commit ids read from a `<commits>` list are never blank and carry
/// no surrounding white space.
pub proof fn law_commit_list_items(s: Seq<char>)
    ensures
        forall|i: int|
            0 <= i < commit_list_spec(s).len() ==> (#[trigger] commit_list_spec(s)[i]).len() > 0
                && !is_white_space(commit_list_spec(s)[i][0]) && !is_white_space(
                commit_list_spec(s)[i].last(),
            ),
{
    lemma_nonempty_trimmed_items(split_spec(s, ','));
}

/// The commit ids of a `<commits>` list are the comma-separated pieces of
/// the text, each trimmed, the blank ones left out, in order.
pub proof fn law_commit_list_pieces(s: Seq<char>)
    ensures
        commit_list_spec(s) == split_spec(s, ',').map_values(|p: Seq<char>| trim_spec(p)).filter(
            |t: Seq<char>| t.len() > 0,
        ),
{
    lemma_nonempty_trimmed_filter(split_spec(s, ','));
}

proof fn lemma_nonempty_trimmed_filter(pieces: Seq<Seq<char>>)
    ensures
        nonempty_trimmed(pieces) == pieces.map_values(|p: Seq<char>| trim_spec(p)).filter(
            |t: Seq<char>| t.len() > 0,
        ),
    decreases pieces.len(),
{
    reveal(Seq::filter);
    let tp = pieces.map_values(|p: Seq<char>| trim_spec(p));
    if pieces.len() > 0 {
        lemma_nonempty_trimmed_filter(pieces.drop_last());
        assert(tp.drop_last() =~= pieces.drop_last().map_values(|p: Seq<char>| trim_spec(p)));
        assert(tp.last() == trim_spec(pieces.last()));
    } else {
        assert(tp =~= Seq::<Seq<char>>::empty());
    }
}

proof fn lemma_nonempty_trimmed_items(pieces: Seq<Seq<char>>)
    ensures
        forall|i: int|
            0 <= i < nonempty_trimmed(pieces).len() ==> (#[trigger] nonempty_trimmed(pieces)[i]).len()
                > 0 && !is_white_space(nonempty_trimmed(pieces)[i][0]) && !is_white_space(
                nonempty_trimmed(pieces)[i].last(),
            ),
    decreases pieces.len(),
{
    if pieces.len() > 0 {
        let rest = nonempty_trimmed(pieces.drop_last());
        lemma_nonempty_trimmed_items(pieces.drop_last());
        lemma_trim_ends(pieces.last());
        let r = nonempty_trimmed(pieces);
        assert forall|i: int| 0 <= i < r.len() implies (#[trigger] r[i]).len() > 0 && !is_white_space(
            r[i][0],
        ) && !is_white_space(r[i].last()) by {
            if i < rest.len() {
                assert(r[i] == rest[i]);
            }
        }
    }
}

/// The tokens of named fields, each an opening tag, its text and its
/// closing tag.
pub open spec fn field_tokens(fields: Seq<(Seq<char>, Seq<char>)>) -> Seq<XmlTokenView>
    decreases fields.len(),
{
    if fields.len() == 0 {
        seq![]
    } else {
        field_tokens(fields.drop_last()) + seq![
            XmlTokenView::Start(fields.last().0),
            XmlTokenView::Text(fields.last().1),
            XmlTokenView::End(fields.last().0),
        ]
    }
}

/// The tokens of a reply written as a root tag around named fields.
pub open spec fn flat_reply_tokens(root: Seq<char>, fields: Seq<(Seq<char>, Seq<char>)>) -> Seq<
    XmlTokenView,
> {
    seq![XmlTokenView::Start(root)] + field_tokens(fields) + seq![
        XmlTokenView::End(root),
        XmlTokenView::Eof,
    ]
}

/// A reply written as a root tag around named fields is read back field by
/// field: its kind comes from the root tag (or the text), and its output
/// is built from exactly those fields, a later field of the same name
/// replacing an earlier one.
pub proof fn law_flat_reply_read_back(
    xml: Seq<char>,
    root: Seq<char>,
    fields: Seq<(Seq<char>, Seq<char>)>,
)
    ensures
        parse_tokens_spec(xml, flat_reply_tokens(root, fields)) == match response_kind_spec(
            xml,
            root,
        ) {
            None => Err(OutputErrorView::UnknownRootTag),
            Some(kind) => output_from_fields(kind, map_of(fields)),
        },
{
    let toks = flat_reply_tokens(root, fields);
    let body = seq![XmlTokenView::Start(root)] + field_tokens(fields);
    lemma_field_tokens(fields);
    lemma_scan_fields(root, fields);
    let n = toks.len() - 1;
    assert forall|j: int| 0 <= j < n implies !is_final_token(#[trigger] toks[j]) by {
        if 1 <= j < body.len() {
            assert(toks[j] == field_tokens(fields)[j - 1]);
        }
    }
    lemma_first_final_at(toks, n);
    assert(toks.take(n) =~= body.push(XmlTokenView::End(root)));
    assert(body.push(XmlTokenView::End(root)).drop_last() =~= body);
    assert(toks[0] == XmlTokenView::Start(root));
}

/// Text before the reply's first tag is ignored: it changes neither the
/// kind, nor the fields, nor any error.
pub proof fn law_leading_text_ignored(xml: Seq<char>, pre: Seq<char>, toks: Seq<XmlTokenView>)
    ensures
        parse_tokens_spec(xml, seq![XmlTokenView::Text(pre)] + toks) == parse_tokens_spec(
            xml,
            toks,
        ),
{
    let x = XmlTokenView::Text(pre);
    let all = seq![x] + toks;
    assert(all.drop_first() =~= toks);
    assert(root_tag_spec(all) == root_tag_spec(toks));
    assert(first_final(all) == 1 + first_final(toks));
    lemma_first_final_bound(toks);
    let k = first_final(toks);
    assert(all.take(1 + k) =~= seq![x] + toks.take(k));
    lemma_scan_leading_text(pre, toks.take(k));
    if k < toks.len() {
        assert(all[1 + k] == toks[k]);
    }
}

proof fn lemma_first_final_bound(toks: Seq<XmlTokenView>)
    ensures
        0 <= first_final(toks) <= toks.len(),
    decreases toks.len(),
{
    if toks.len() > 0 && !is_final_token(toks[0]) {
        lemma_first_final_bound(toks.drop_first());
    }
}

proof fn lemma_scan_leading_text(pre: Seq<char>, toks: Seq<XmlTokenView>)
    ensures
        scan_tokens(seq![XmlTokenView::Text(pre)] + toks) == scan_tokens(toks),
    decreases toks.len(),
{
    let x = XmlTokenView::Text(pre);
    if toks.len() == 0 {
        assert(seq![x] + toks =~= seq![x]);
        assert(seq![x].drop_last() =~= Seq::<XmlTokenView>::empty());
        assert(scan_tokens(Seq::<XmlTokenView>::empty()) == scan_start());
    } else {
        lemma_scan_leading_text(pre, toks.drop_last());
        assert((seq![x] + toks).drop_last() =~= seq![x] + toks.drop_last());
        assert((seq![x] + toks).last() == toks.last());
    }
}

proof fn lemma_field_tokens(fields: Seq<(Seq<char>, Seq<char>)>)
    ensures
        field_tokens(fields).len() == 3 * fields.len(),
        forall|i: int|
            0 <= i < field_tokens(fields).len() ==> !is_final_token(#[trigger] field_tokens(fields)[i]),
    decreases fields.len(),
{
    if fields.len() > 0 {
        let init = fields.drop_last();
        lemma_field_tokens(init);
        let t = field_tokens(fields);
        assert forall|i: int| 0 <= i < t.len() implies !is_final_token(#[trigger] t[i]) by {
            if i < field_tokens(init).len() {
                assert(t[i] == field_tokens(init)[i]);
            }
        }
    }
}

proof fn lemma_scan_fields(root: Seq<char>, fields: Seq<(Seq<char>, Seq<char>)>)
    ensures
        scan_tokens(seq![XmlTokenView::Start(root)] + field_tokens(fields)).fields == map_of(
            fields,
        ),
        scan_tokens(seq![XmlTokenView::Start(root)] + field_tokens(fields)).stack == seq![root],
    decreases fields.len(),
{
    let head = seq![XmlTokenView::Start(root)];
    if fields.len() == 0 {
        assert(head + field_tokens(fields) =~= head);
        assert(head.drop_last() =~= Seq::<XmlTokenView>::empty());
        assert(scan_tokens(Seq::<XmlTokenView>::empty()) == scan_start());
        assert(scan_tokens(head) == scan_step(scan_start(), XmlTokenView::Start(root)));
        assert(scan_start().stack.push(root) =~= seq![root]);
        assert(scan_start().fields =~= map_of(fields));
    } else {
        let init = fields.drop_last();
        let (f, v) = fields.last();
        lemma_scan_fields(root, init);
        let p = head + field_tokens(init);
        let a = XmlTokenView::Start(f);
        let b = XmlTokenView::Text(v);
        let c = XmlTokenView::End(f);
        let q = head + field_tokens(fields);
        assert(q =~= p.push(a).push(b).push(c));
        assert(p.push(a).push(b).push(c).drop_last() =~= p.push(a).push(b));
        assert(p.push(a).push(b).drop_last() =~= p.push(a));
        assert(p.push(a).drop_last() =~= p);
        let s0 = scan_tokens(p);
        let s1 = scan_step(s0, a);
        let s2 = scan_step(s1, b);
        assert(scan_tokens(p.push(a)) == s1);
        assert(scan_tokens(p.push(a).push(b)) == s2);
        assert(scan_tokens(q) == scan_step(s2, c));
        assert(s1.stack =~= seq![root, f]);
        assert(s2.text =~= v);
        assert(s2.stack.last() == f);
        assert(scan_step(s2, c).stack =~= seq![root]);
        assert(scan_step(s2, c).fields == map_of(init).insert(f, v));
        assert(fields.drop_last() == init);
    }
}

proof fn lemma_first_final_at(toks: Seq<XmlTokenView>, i: int)
    requires
        0 <= i <= toks.len(),
        forall|j: int| 0 <= j < i ==> !is_final_token(#[trigger] toks[j]),
        i < toks.len() ==> is_final_token(toks[i]),
    ensures
        first_final(toks) == i,
    decreases i,
{
    if i > 0 {
        let t = toks.drop_first();
        assert forall|j: int| 0 <= j < i - 1 implies !is_final_token(#[trigger] t[j]) by {
            assert(t[j] == toks[j + 1]);
        }
        if i - 1 < t.len() {
            assert(t[i - 1] == toks[i]);
        }
        assert(!is_final_token(toks[0]));
        lemma_first_final_at(t, i - 1);
    }
}

proof fn lemma_root_tag_skip(toks: Seq<XmlTokenView>, i: int)
    requires
        0 <= i <= toks.len(),
        forall|j: int|
            0 <= j < i ==> !is_final_token(#[trigger] toks[j]) && !(toks[j] is Start) && !(
            toks[j] is Empty),
    ensures
        root_tag_spec(toks) == root_tag_spec(toks.skip(i)),
    decreases i,
{
    if i > 0 {
        let t = toks.drop_first();
        assert forall|j: int| 0 <= j < i - 1 implies !is_final_token(#[trigger] t[j]) && !(
        t[j] is Start) && !(t[j] is Empty) by {
            assert(t[j] == toks[j + 1]);
        }
        assert(!is_final_token(toks[0]) && !(toks[0] is Start) && !(toks[0] is Empty));
        assert(root_tag_spec(toks) == root_tag_spec(t));
        lemma_root_tag_skip(t, i - 1);
        assert(t.skip(i - 1) =~= toks.skip(i));
    } else {
        assert(toks.skip(0) =~= toks);
    }
}

// ---------------------------------------------------------------------------
// Implementation
// ---------------------------------------------------------------------------

/// The name of the reply's root tag: the first tag opened before the end of
/// the input or the first error.
pub fn root_tag(toks: &Vec<XmlToken>) -> (r: Option<String>)
    ensures
        opt_view(r) == root_tag_spec(token_views(toks@)),
{
    let ghost tv = token_views(toks@);
    let mut i: usize = 0;
    while i < toks.len()
        invariant
            0 <= i <= toks@.len(),
            tv == token_views(toks@),
            forall|j: int|
                0 <= j < i ==> !is_final_token(#[trigger] tv[j]) && !(tv[j] is Start) && !(
                tv[j] is Empty),
        decreases toks@.len() - i,
    {
        proof {
            lemma_root_tag_skip(tv, i as int);
            assert(tv.skip(i as int)[0] == tv[i as int]);
        }
        match &toks[i] {
            XmlToken::Start(n) => {
                return Some(n.clone());
            },
            XmlToken::Empty(n) => {
                return Some(n.clone());
            },
            XmlToken::Eof => {
                return None;
            },
            XmlToken::Failure(_) => {
                return None;
            },
            _ => {},
        }
        proof {
            assert(tv.skip(i as int).drop_first() =~= tv.skip(i + 1));
        }
        i = i + 1;
    }
    proof {
        lemma_root_tag_skip(tv, i as int);
    }
    None
}

/// The fields of a reply: the text of each direct child of the root, read
/// up to the end of the input or the first error.  When the first error
/// comes before any field was complete, the reply is malformed.
pub fn extract_fields(toks: &Vec<XmlToken>) -> (r: Result<StrMap, OutputError>)
    ensures
        match r {
            Ok(m) => fields_spec(token_views(toks@)) == Ok::<
                Map<Seq<char>, Seq<char>>,
                OutputErrorView,
            >(m@),
            Err(e) => fields_spec(token_views(toks@)) == Err::<
                Map<Seq<char>, Seq<char>>,
                OutputErrorView,
            >(e@),
        },
{
    let ghost tv = token_views(toks@);
    let mut fields = StrMap::new();
    let mut stack: Vec<String> = Vec::new();
    let mut current = String::new();
    let mut i: usize = 0;
    assert(tv.take(0) =~= Seq::<XmlTokenView>::empty());
    assert(views(stack@) =~= Seq::<Seq<char>>::empty());
    while i < toks.len()
        invariant
            0 <= i <= toks@.len(),
            tv == token_views(toks@),
            forall|j: int| 0 <= j < i ==> !is_final_token(#[trigger] tv[j]),
            fields@ == scan_tokens(tv.take(i as int)).fields,
            views(stack@) == scan_tokens(tv.take(i as int)).stack,
            current@ == scan_tokens(tv.take(i as int)).text,
        decreases toks@.len() - i,
    {
        let ghost st = scan_tokens(tv.take(i as int));
        proof {
            assert(tv.take(i + 1).drop_last() =~= tv.take(i as int));
            assert(tv.take(i + 1).last() == tv[i as int]);
        }
        match &toks[i] {
            XmlToken::Start(n) => {
                let ghost old_stack = stack@;
                stack.push(n.clone());
                current = String::new();
                proof {
                    assert(views(stack@) =~= views(old_stack).push(n@));
                }
            },
            XmlToken::Text(t) => {
                if stack.len() > 0 {
                    push_str(&mut current, t.as_str());
                }
            },
            XmlToken::End(n) => {
                let depth = stack.len();
                if depth > 0 {
                    proof {
                        assert(views(stack@).last() == stack@[depth - 1]@);
                    }
                    if stack[depth - 1] == *n {
                        if depth == 2 {
                            fields.insert(n.clone(), current.clone());
                        }
                        let ghost old_stack = stack@;
                        stack.pop();
                        proof {
                            assert(views(stack@) =~= views(old_stack).drop_last());
                        }
                    }
                }
            },
            XmlToken::Eof => {
                proof {
                    lemma_first_final_at(tv, i as int);
                }
                return Ok(fields);
            },
            XmlToken::Failure(m) => {
                proof {
                    lemma_first_final_at(tv, i as int);
                }
                if fields.is_empty() {
                    return Err(OutputError::XmlSyntax { message: m.clone() });
                }
                return Ok(fields);
            },
            XmlToken::Empty(_) => {},
            XmlToken::Other => {},
        }
        i = i + 1;
    }
    proof {
        lemma_first_final_at(tv, i as int);
        assert(tv.take(i as int) =~= tv);
    }
    Ok(fields)
}

/// The commit identifiers of a comma-separated list: each item trimmed,
/// empty items dropped.
pub fn commit_list(s: &str) -> (r: Vec<String>)
    ensures
        views(r@) == commit_list_spec(s@),
        views(r@) == split_spec(s@, ',').map_values(|p: Seq<char>| trim_spec(p)).filter(
            |t: Seq<char>| t.len() > 0,
        ),
{
    proof {
        law_commit_list_pieces(s@);
    }
    let pieces = split_on(s, ',');
    let ghost pv = views(pieces@);
    let mut r: Vec<String> = Vec::new();
    let mut i: usize = 0;
    assert(pv.take(0) =~= Seq::<Seq<char>>::empty());
    while i < pieces.len()
        invariant
            0 <= i <= pieces@.len(),
            pv == views(pieces@),
            pv == split_spec(s@, ','),
            views(r@) == nonempty_trimmed(pv.take(i as int)),
        decreases pieces@.len() - i,
    {
        let t = trim(pieces[i].as_str());
        proof {
            assert(pv.take(i + 1).drop_last() =~= pv.take(i as int));
            assert(pv.take(i + 1).last() == pieces@[i as int]@);
        }
        if !t.as_str().is_empty() {
            let ghost old_r = r@;
            r.push(t);
            proof {
                assert(views(r@) =~= views(old_r).push(trim_spec(pieces@[i as int]@)));
            }
        }
        i = i + 1;
    }
    assert(pv.take(pieces@.len() as int) =~= pv);
    r
}

/// A required field, or the error naming it.
fn required(
    fields: &StrMap,
    key: &str,
    response: ResponseKind,
    field: ResponseField,
) -> (r: Result<String, OutputError>)
    ensures
        match r {
            Ok(v) => lookup(fields@, key@) == Some(v@),
            Err(e) => lookup(fields@, key@) is None && e@ == (OutputErrorView::MissingField {
                response,
                field,
            }),
        },
{
    match fields.get(key) {
        Some(v) => Ok(v),
        None => Err(OutputError::MissingField { response, field }),
    }
}

/// An optional field.
fn optional(fields: &StrMap, key: &str) -> (r: Option<String>)
    ensures
        opt_view(r) == lookup(fields@, key@),
{
    fields.get(key)
}

/// The reply of a kind built from its fields.
pub fn output_from(kind: ResponseKind, fields: &StrMap) -> (r: Result<LlmOutput, OutputError>)
    ensures
        result_view(r) == output_from_fields(kind, fields@),
{
    match kind {
        ResponseKind::Commit => {
            let summary = Some(required(fields, "summary", kind, ResponseField::Summary)?);
            let message = required(fields, "message", kind, ResponseField::Message)?;
            let body = optional(fields, "body");
            Ok(LlmOutput::Commit(CommitOutput { summary, message, body }))
        },
        ResponseKind::Goto => {
            let summary = required(fields, "summary", kind, ResponseField::Summary)?;
            let target = required(fields, "target", kind, ResponseField::Target)?;
            Ok(LlmOutput::Goto(GotoOutput { summary, target }))
        },
        ResponseKind::Pack => {
            let summary = required(fields, "summary", kind, ResponseField::Summary)?;
            let listed = match fields.get("commits") {
                Some(c) => c,
                None => String::new(),
            };
            let commits = commit_list(listed.as_str());
            let message = required(fields, "message", kind, ResponseField::Message)?;
            let body = optional(fields, "body");
            Ok(LlmOutput::Pack(PackOutput { summary, commits, message, body }))
        },
        ResponseKind::Reply => {
            let message = required(fields, "message", kind, ResponseField::Message)?;
            Ok(LlmOutput::Reply(ReplyOutput { message }))
        },
    }
}

/// The kind of reply for a root tag, falling back on the kinds whose
/// opening tag occurs in the text.
pub fn response_kind(xml: &str, root: &str) -> (r: Option<ResponseKind>)
    ensures
        r == response_kind_spec(xml@, root@),
{
    if str_eq(root, "commit") {
        Some(ResponseKind::Commit)
    } else if str_eq(root, "goto") {
        Some(ResponseKind::Goto)
    } else if str_eq(root, "pack") {
        Some(ResponseKind::Pack)
    } else if str_eq(root, "reply") {
        Some(ResponseKind::Reply)
    } else if contains(xml, "<commit>") {
        Some(ResponseKind::Commit)
    } else if contains(xml, "<goto>") {
        Some(ResponseKind::Goto)
    } else if contains(xml, "<pack>") {
        Some(ResponseKind::Pack)
    } else if contains(xml, "<reply>") {
        Some(ResponseKind::Reply)
    } else {
        None
    }
}

/// The name of a kind of reply, as its root tag reads.
pub open spec fn kind_name(k: ResponseKind) -> Seq<char> {
    match k {
        ResponseKind::Commit => "commit"@,
        ResponseKind::Goto => "goto"@,
        ResponseKind::Pack => "pack"@,
        ResponseKind::Reply => "reply"@,
    }
}

/// The name of a required field, as its tag reads.
pub open spec fn field_name(f: ResponseField) -> Seq<char> {
    match f {
        ResponseField::Summary => "summary"@,
        ResponseField::Message => "message"@,
        ResponseField::Target => "target"@,
    }
}

/// The text that explains a parse error.
pub open spec fn error_message_spec(e: OutputErrorView) -> Seq<char> {
    match e {
        OutputErrorView::XmlSyntax { message } => "XML parse error: "@ + message,
        OutputErrorView::RootTagNotFound => "Could not find root tag in XML"@,
        OutputErrorView::UnknownRootTag => "Unknown or missing root tag in LLM response"@,
        OutputErrorView::MissingField { response, field } => "Missing required field '"@
            + field_name(field) + "' in "@ + kind_name(response) + " response"@,
    }
}

fn kind_text(k: ResponseKind) -> (s: &'static str)
    ensures
        s@ == kind_name(k),
{
    match k {
        ResponseKind::Commit => "commit",
        ResponseKind::Goto => "goto",
        ResponseKind::Pack => "pack",
        ResponseKind::Reply => "reply",
    }
}

fn field_text(f: ResponseField) -> (s: &'static str)
    ensures
        s@ == field_name(f),
{
    match f {
        ResponseField::Summary => "summary",
        ResponseField::Message => "message",
        ResponseField::Target => "target",
    }
}

impl OutputError {
    /// The text that explains the error.
    pub fn message(&self) -> (s: String)
        ensures
            s@ == error_message_spec(self@),
    {
        match self {
            OutputError::XmlSyntax { message } => concat("XML parse error: ", message.as_str()),
            OutputError::RootTagNotFound => "Could not find root tag in XML".to_owned(),
            OutputError::UnknownRootTag => "Unknown or missing root tag in LLM response".to_owned(),
            OutputError::MissingField { response, field } => {
                let mut s = concat("Missing required field '", field_text(*field));
                push_str(&mut s, "' in ");
                push_str(&mut s, kind_text(*response));
                push_str(&mut s, " response");
                s
            },
        }
    }
}

/// Parses a reply text given the tokens quick-xml yields for it.
pub fn parse_tokens(xml: &str, toks: &Vec<XmlToken>) -> (r: Result<LlmOutput, OutputError>)
    ensures
        result_view(r) == parse_tokens_spec(xml@, token_views(toks@)),
{
    let root = match root_tag(toks) {
        Some(root) => root,
        None => {
            return Err(OutputError::RootTagNotFound);
        },
    };
    let kind = match response_kind(xml, root.as_str()) {
        Some(kind) => kind,
        None => {
            return Err(OutputError::UnknownRootTag);
        },
    };
    let fields = extract_fields(toks)?;
    output_from(kind, &fields)
}

/// Parses a reply of the language model.
pub fn parse_xml_output(xml: &str) -> (r: Result<LlmOutput, OutputError>)
    ensures
        result_view(r) == parse_xml_output_spec(xml@),
{
    let toks = xml_tokens(xml);
    parse_tokens(xml, &toks)
}

/// The one-line summary of a reply: its summary, or for a commit without
/// one its message, and for a declined request the explanation.
pub fn format_summary(output: &LlmOutput) -> (s: String)
    ensures
        s@ == summary_spec(output@),
{
    match output {
        LlmOutput::Commit(c) => match &c.summary {
            Some(s) => s.clone(),
            None => c.message.clone(),
        },
        LlmOutput::Goto(g) => g.summary.clone(),
        LlmOutput::Pack(p) => p.summary.clone(),
        LlmOutput::Reply(r) => r.message.clone(),
    }
}

} // verus!
