//! The parts of a parsed email and the choice of its plain-text body.
//!
//! Parsing the MIME structure is left to the `mailparse` crate. What the
//! export needs of its result is held here as plain values: the first
//! `Subject`, `From` and `Date` header values, and every MIME part in
//! depth-first pre-order (the message itself first), each with its content
//! type, the `content-type` parameter of its `Content-Disposition` header,
//! its decoded body and the number of its direct subparts.

use vstd::prelude::*;
use mailparse::MailHeaderMap;
use crate::mbox::RawMessage;
use crate::text::{chars_of, contains_chars, contains_seq, same_chars};

verus! {

/// `mailparse::MailParseError`, carried from the parser to the text that
/// describes it.
#[verifier::external_type_specification]
#[verifier::external_body]
pub struct ExMailParseError(mailparse::MailParseError);

/// One MIME part, without its subparts.
#[derive(Debug)]
pub struct MimePart {
    /// The content type, such as `text/plain` (lowercase).
    pub mimetype: String,
    /// The `content-type` parameter of the part's `Content-Disposition`
    /// header, if there is one.
    pub disposition_content_type: Option<String>,
    /// The decoded body; `None` when it could not be decoded.
    pub body: Option<String>,
    /// How many direct subparts the part has.
    pub subpart_count: usize,
}

/// A parsed email: its first `Subject`, `From` and `Date` header values and
/// its MIME parts in depth-first pre-order, the message itself first.
#[derive(Debug)]
pub struct ParsedEmail {
    pub subject: Option<String>,
    pub from: Option<String>,
    pub date: Option<String>,
    pub parts: Vec<MimePart>,
}

/// The view of a [`MimePart`].
pub struct MimePartModel {
    pub mimetype: Seq<char>,
    pub disposition_content_type: Option<Seq<char>>,
    pub body: Option<Seq<char>>,
    pub subpart_count: nat,
}

/// The view of a [`ParsedEmail`].
pub struct ParsedEmailModel {
    pub subject: Option<Seq<char>>,
    pub from: Option<Seq<char>>,
    pub date: Option<Seq<char>>,
    pub parts: Seq<MimePartModel>,
}

/// The characters of an optional string.
pub open spec fn opt_view(o: Option<String>) -> Option<Seq<char>> {
    match o {
        Some(s) => Some(s@),
        None => None,
    }
}

impl View for MimePart {
    type V = MimePartModel;

    open spec fn view(&self) -> MimePartModel {
        MimePartModel {
            mimetype: self.mimetype@,
            disposition_content_type: opt_view(self.disposition_content_type),
            body: opt_view(self.body),
            subpart_count: self.subpart_count as nat,
        }
    }
}

/// The views of a list of parts.
pub open spec fn parts_view(parts: Seq<MimePart>) -> Seq<MimePartModel> {
    parts.map_values(|p: MimePart| p@)
}

impl View for ParsedEmail {
    type V = ParsedEmailModel;

    open spec fn view(&self) -> ParsedEmailModel {
        ParsedEmailModel {
            subject: opt_view(self.subject),
            from: opt_view(self.from),
            date: opt_view(self.date),
            parts: parts_view(self.parts@),
        }
    }
}

/// What `mailparse` makes of the bytes `raw`: `None` when `parse_mail`
/// fails, otherwise the header values and the parts as [`parse_email`]
/// collects them.
pub uninterp spec fn mailparse_email(raw: Seq<u8>) -> Option<ParsedEmailModel>;

/// Parses `raw` with `mailparse::parse_mail` and collects what the export
/// reads of the result: `get_first_value` of the `Subject`, `From` and
/// `Date` headers, and for each part that `parts()` yields (depth-first
/// pre-order, the message first) its `ctype.mimetype`, the `content-type`
/// parameter of `get_content_disposition()`, `get_body()` (`None` on an
/// error) and the length of its `subparts`. The contract ties the outcome
/// to the name [`mailparse_email`] and says no more of it.
#[verifier::external_body]
fn parse_email(raw: &[u8]) -> (r: Result<ParsedEmail, mailparse::MailParseError>)
    ensures
        r is Ok <==> mailparse_email(raw@) is Some,
        r matches Ok(m) ==> mailparse_email(raw@) == Some(m@),
{
    let mail = mailparse::parse_mail(raw)?;
    let mut parts = Vec::new();
    for p in mail.parts() {
        parts.push(MimePart {
            mimetype: p.ctype.mimetype.clone(),
            disposition_content_type: p.get_content_disposition().params.get("content-type").cloned(),
            body: p.get_body().ok(),
            subpart_count: p.subparts.len(),
        });
    }
    let headers = &mail.headers;
    Ok(ParsedEmail { subject: headers.get_first_value("Subject"), from: headers.get_first_value("From"), date: headers.get_first_value("Date"), parts })
}

/// The message `mailparse` gives for a parse error (its `Display`). Nothing
/// is stated of the text: the error value is an outside type that no name
/// over plain values can take.
#[verifier::external_body]
fn describe_parse_error(e: &mailparse::MailParseError) -> String {
    e.to_string()
}

/// Why a message could not be parsed, as `mailparse` describes it.
#[derive(Debug)]
pub struct MimeParseError {
    pub description: String,
}

/// Parses the MIME structure of one message.
pub fn parse_message(raw: &RawMessage) -> (r: Result<ParsedEmail, MimeParseError>)
    ensures
        r is Ok <==> mailparse_email(raw@) is Some,
        r matches Ok(m) ==> mailparse_email(raw@) == Some(m@),
{
    match parse_email(raw.bytes.as_slice()) {
        Ok(m) => Ok(m),
        Err(e) => Err(MimeParseError { description: describe_parse_error(&e) }),
    }
}


/// A MIME part with its subparts, as the pre-order list of parts describes
/// it.
pub struct MailTree {
    pub part: MimePartModel,
    pub children: Seq<MailTree>,
}

/// The part that starts at index `i` of the pre-order list, with all its
/// descendants, and the index just after them. A list cut short (which
/// `mailparse` never yields) simply gives fewer subparts.
pub open spec fn decode_part(parts: Seq<MimePartModel>, i: int) -> Option<(MailTree, int)>
    decreases parts.len() - i, 0int,
{
    if 0 <= i < parts.len() {
        let (children, end) = decode_children(parts, i + 1, parts[i].subpart_count as int);
        Some((MailTree { part: parts[i], children }, end))
    } else {
        None
    }
}

/// Up to `k` consecutive sibling parts starting at index `j`, and the index
/// just after them.
pub open spec fn decode_children(parts: Seq<MimePartModel>, j: int, k: int) -> (Seq<MailTree>, int)
    decreases parts.len() - j, k + 1,
{
    if k <= 0 || j < 0 || j >= parts.len() {
        (Seq::empty(), j)
    } else {
        match decode_part(parts, j) {
            None => (Seq::empty(), j),
            Some((t, e)) => {
                if e <= j || e > parts.len() {
                    (seq![t], e)
                } else {
                    let (rest, end) = decode_children(parts, e, k - 1);
                    (seq![t] + rest, end)
                }
            },
        }
    }
}

/// The part tree of an email: the message part with all its descendants
/// (a childless empty part for an email with no parts at all).
pub open spec fn email_tree(parts: Seq<MimePartModel>) -> MailTree {
    match decode_part(parts, 0) {
        Some((t, _)) => t,
        None => MailTree {
            part: MimePartModel {
                mimetype: Seq::empty(),
                disposition_content_type: None,
                body: None,
                subpart_count: 0,
            },
            children: Seq::empty(),
        },
    }
}

/// The part's decoded body, or nothing when it could not be decoded.
pub open spec fn body_text(p: MimePartModel) -> Seq<char> {
    match p.body {
        Some(b) => b,
        None => Seq::empty(),
    }
}

/// A part that is plain text: its `Content-Disposition` header has a
/// `content-type` parameter containing `text/plain`, or its content type is
/// `text/plain`.
pub open spec fn is_plain_text_part(p: MimePartModel) -> bool {
    ||| (p.disposition_content_type matches Some(ct) && contains_seq(ct, "text/plain"@))
    ||| p.mimetype == "text/plain"@
}

/// The body of the first plain-text part among the descendants of a part,
/// taken depth first (each part before its own subparts, siblings in
/// order), whether that body is empty or not; `None` when no descendant is
/// a plain-text part.
pub open spec fn first_plain_below(t: MailTree) -> Option<Seq<char>>
    decreases t,
{
    first_plain_in(t.children)
}

/// The body of the first plain-text part among sibling parts and their
/// descendants, depth first; `None` when there is none.
pub open spec fn first_plain_in(cs: Seq<MailTree>) -> Option<Seq<char>>
    decreases cs,
{
    if cs.len() == 0 {
        None
    } else if is_plain_text_part(cs[0].part) {
        Some(body_text(cs[0].part))
    } else {
        match first_plain_below(cs[0]) {
            Some(b) => Some(b),
            None => first_plain_in(cs.subrange(1, cs.len() as int)),
        }
    }
}

/// The plain text of a message: its own body when it has no subparts,
/// otherwise the body of its first plain-text descendant, or nothing when
/// it has none.
pub open spec fn plain_text(t: MailTree) -> Seq<char> {
    if t.children.len() == 0 {
        body_text(t.part)
    } else {
        match first_plain_below(t) {
            Some(b) => b,
            None => Seq::empty(),
        }
    }
}

/// The decoded body of a part, or an empty string.
fn body_or_empty(p: &MimePart) -> (r: String)
    ensures
        r@ == body_text(p@),
{
    match &p.body {
        Some(b) => b.clone(),
        None => String::new(),
    }
}

/// Is the part a plain-text part?
fn is_plain_part(p: &MimePart) -> (r: bool)
    ensures
        r == is_plain_text_part(p@),
{
    let plain = chars_of("text/plain");
    let in_disposition = match &p.disposition_content_type {
        Some(ct) => contains_chars(&chars_of(ct.as_str()), &plain),
        None => false,
    };
    in_disposition || same_chars(&chars_of(p.mimetype.as_str()), &plain)
}

proof fn lemma_decode_bounds(parts: Seq<MimePartModel>, i: int)
    requires
        0 <= i < parts.len(),
    ensures
        i < decode_part(parts, i).unwrap().1 <= parts.len(),
    decreases parts.len() - i, 0int,
{
    lemma_children_bounds(parts, i + 1, parts[i].subpart_count as int);
}

proof fn lemma_children_bounds(parts: Seq<MimePartModel>, j: int, k: int)
    requires
        0 <= j <= parts.len(),
    ensures
        j <= decode_children(parts, j, k).1 <= parts.len(),
    decreases parts.len() - j, k + 1,
{
    if k > 0 && j < parts.len() {
        lemma_decode_bounds(parts, j);
        let (t, e) = decode_part(parts, j).unwrap();
        lemma_children_bounds(parts, e, k - 1);
    }
}

/// The index just after the part that starts at `i` and its descendants.
fn part_end(parts: &Vec<MimePart>, i: usize) -> (e: usize)
    requires
        i < parts@.len(),
    ensures
        e == decode_part(parts_view(parts@), i as int).unwrap().1,
    decreases parts@.len() - i,
{
    let ghost m = parts_view(parts@);
    let n = parts.len();
    let mut j: usize = i + 1;
    let mut k: usize = parts[i].subpart_count;
    while k > 0 && j < n
        invariant
            n == parts@.len(),
            m == parts_view(parts@),
            i < j <= n,
            decode_children(m, j as int, k as int).1 == decode_part(m, i as int).unwrap().1,
        decreases k,
    {
        proof {
            lemma_decode_bounds(m, j as int);
        }
        let e = part_end(parts, j);
        if e <= j || e > n {
            return e;
        }
        j = e;
        k = k - 1;
    }
    j
}

/// The body of the first plain-text descendant of the part that starts at
/// `i`, depth first.
fn first_plain_at(parts: &Vec<MimePart>, i: usize) -> (r: Option<String>)
    requires
        i < parts@.len(),
    ensures
        opt_view(r) == first_plain_below(decode_part(parts_view(parts@), i as int).unwrap().0),
    decreases parts@.len() - i,
{
    let ghost m = parts_view(parts@);
    let ghost t = decode_part(m, i as int).unwrap().0;
    let n = parts.len();
    let p = &parts[i];
    assert(m[i as int] == parts@[i as int]@);
    assert(t.children == decode_children(m, i + 1, p.subpart_count as int).0);
    if p.subpart_count == 0 || i + 1 >= n {
        return None;
    }
    let mut j: usize = i + 1;
    let mut k: usize = p.subpart_count;
    while k > 0 && j < n
        invariant
            n == parts@.len(),
            m == parts_view(parts@),
            i < j <= n,
            t == decode_part(m, i as int).unwrap().0,
            first_plain_below(t) == first_plain_in(decode_children(m, j as int, k as int).0),
        decreases k,
    {
        let ghost cs = decode_children(m, j as int, k as int).0;
        assert(m[j as int] == parts@[j as int]@);
        assert(decode_part(m, j as int) is Some);
        assert(cs[0] == decode_part(m, j as int).unwrap().0);
        let c = &parts[j];
        if is_plain_part(c) {
            return Some(body_or_empty(c));
        }
        let nested = first_plain_at(parts, j);
        if nested.is_some() {
            return nested;
        }
        proof {
            lemma_decode_bounds(m, j as int);
        }
        let e = part_end(parts, j);
        if e <= j || e > n {
            assert(cs.subrange(1, cs.len() as int) =~= Seq::<MailTree>::empty());
            return None;
        }
        assert(cs.subrange(1, cs.len() as int) == decode_children(m, e as int, k - 1).0);
        j = e;
        k = k - 1;
    }
    None
}

/// Extracts the plain-text body from a parsed email.
///
/// For multipart messages, walks all parts (depth first, into nested
/// multiparts) and returns the body of the first text/plain part, or an
/// empty string when there is none.
/// For single-part messages, returns the body directly.
pub fn extract_plain_text(mail: &ParsedEmail) -> (r: String)
    ensures
        r@ == plain_text(email_tree(mail@.parts)),
{
    let parts = &mail.parts;
    if parts.len() == 0 {
        return String::new();
    }
    let ghost m = parts_view(parts@);
    assert(m[0] == parts@[0]@);
    let p = &parts[0];
    if p.subpart_count == 0 || parts.len() <= 1 {
        return body_or_empty(p);
    }
    assert(decode_part(m, 1) is Some);
    match first_plain_at(parts, 0) {
        Some(b) => b,
        None => String::new(),
    }
}

/// What the depth-first search below a part finds, told over the list:
/// the descendants of the part at `i` are the parts from `i + 1` up to the
/// end of its subtree, in depth-first order, and the search gives the body
/// of the first plain-text one among them, or `None` when none is.
pub open spec fn first_plain_among(parts: Seq<MimePartModel>, lo: int, hi: int, found: Option<Seq<char>>) -> bool {
    match found {
        None => forall|y: int| lo <= y < hi ==> !is_plain_text_part(#[trigger] parts[y]),
        Some(b) => exists|x: int|
            lo <= x < hi && is_plain_text_part(#[trigger] parts[x]) && body_text(parts[x]) == b
                && forall|y: int| lo <= y < x ==> !is_plain_text_part(#[trigger] parts[y]),
    }
}

proof fn lemma_part_search(parts: Seq<MimePartModel>, i: int)
    requires
        0 <= i < parts.len(),
    ensures
        ({
            let (t, e) = decode_part(parts, i).unwrap();
            first_plain_among(parts, i + 1, e, first_plain_below(t))
        }),
    decreases parts.len() - i, 0int,
{
    lemma_children_search(parts, i + 1, parts[i].subpart_count as int);
}

proof fn lemma_children_search(parts: Seq<MimePartModel>, j: int, k: int)
    requires
        0 <= j <= parts.len(),
    ensures
        ({
            let (cs, end) = decode_children(parts, j, k);
            first_plain_among(parts, j, end, first_plain_in(cs))
        }),
    decreases parts.len() - j, k + 1,
{
    if k > 0 && j < parts.len() {
        lemma_decode_bounds(parts, j);
        lemma_part_search(parts, j);
        let (t, e) = decode_part(parts, j).unwrap();
        lemma_children_bounds(parts, e, k - 1);
        lemma_children_search(parts, e, k - 1);
        let (cs, end) = decode_children(parts, j, k);
        let (rest, _) = decode_children(parts, e, k - 1);
        assert(cs[0] == t);
        assert(cs.subrange(1, cs.len() as int) =~= rest);
        if is_plain_text_part(parts[j]) {
            assert(first_plain_among(parts, j, end, first_plain_in(cs)));
        } else {
            match first_plain_below(t) {
                Some(b) => {
                    let x = choose|x: int|
                        j + 1 <= x < e && is_plain_text_part(#[trigger] parts[x]) && body_text(parts[x]) == b
                            && forall|y: int| j + 1 <= y < x ==> !is_plain_text_part(#[trigger] parts[y]);
                    assert(forall|y: int| j <= y < x ==> !is_plain_text_part(#[trigger] parts[y]));
                },
                None => {
                    match first_plain_in(rest) {
                        Some(b) => {
                            let x = choose|x: int|
                                e <= x < end && is_plain_text_part(#[trigger] parts[x]) && body_text(parts[x]) == b
                                    && forall|y: int| e <= y < x ==> !is_plain_text_part(#[trigger] parts[y]);
                            assert(forall|y: int| j <= y < x ==> !is_plain_text_part(#[trigger] parts[y]));
                        },
                        None => {
                            assert(forall|y: int| j <= y < end ==> !is_plain_text_part(#[trigger] parts[y]));
                        },
                    }
                },
            }
        }
    }
}

/// The index just after the last part of an email whose parts list is
/// `parts` (the whole list, for what `mailparse` yields).
pub open spec fn email_parts_end(parts: Seq<MimePartModel>) -> int {
    match decode_part(parts, 0) {
        Some((_, e)) => e,
        None => 0,
    }
}

/// A multipart message gives the body of its first plain-text part in
/// depth-first order (the order of the parts list), whether that body is
/// empty or not, and an empty text when none of its parts is plain text.
pub proof fn lemma_multipart_gives_first_plain_part(parts: Seq<MimePartModel>)
    requires
        parts.len() > 1,
        parts[0].subpart_count > 0,
    ensures
        (exists|x: int|
            1 <= x < email_parts_end(parts) && is_plain_text_part(#[trigger] parts[x])
                && (forall|y: int| 1 <= y < x ==> !is_plain_text_part(#[trigger] parts[y]))
                && plain_text(email_tree(parts)) == body_text(parts[x]))
        || ((forall|y: int| 1 <= y < email_parts_end(parts) ==> !is_plain_text_part(#[trigger] parts[y]))
            && plain_text(email_tree(parts)) == Seq::<char>::empty()),
{
    lemma_part_search(parts, 0);
    assert(decode_part(parts, 1) is Some);
    let t = email_tree(parts);
    assert(t.children.len() > 0);
}

/// A message without subparts gives its own decoded body.
pub proof fn lemma_single_part_gives_own_body(parts: Seq<MimePartModel>)
    requires
        parts.len() > 0,
        parts[0].subpart_count == 0,
    ensures
        plain_text(email_tree(parts)) == body_text(parts[0]),
{
}

/// A multipart message whose first subpart is a plain-text part gives that
/// subpart's body.
pub proof fn lemma_first_plain_subpart_wins(parts: Seq<MimePartModel>)
    requires
        parts.len() > 1,
        parts[0].subpart_count > 0,
        is_plain_text_part(parts[1]),
    ensures
        plain_text(email_tree(parts)) == body_text(parts[1]),
{
    let (cs, _) = decode_children(parts, 1, parts[0].subpart_count as int);
    assert(decode_part(parts, 1) is Some);
    assert(cs[0].part == parts[1]);
}

} // verus!
