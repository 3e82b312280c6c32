//! What each message of the archive becomes, and the count of the outcome.

use vstd::prelude::*;
use crate::config::{lemma_default_content, lemma_default_filename, Config};
use crate::text::{decimal, zero_padded};
use crate::mbox::RawMessage;
use crate::mime::{
    email_tree, extract_plain_text, mailparse_email, parse_message, plain_text, MimeParseError,
    ParsedEmail, ParsedEmailModel,
};
use crate::sanitise::{lemma_sanitised_ascii_is_safe, sanitise_filename, sanitised};

verus! {

/// A header value, or the fallback when the header is missing.
pub open spec fn or_fallback(value: Option<Seq<char>>, fallback: Seq<char>) -> Seq<char> {
    match value {
        Some(v) => v,
        None => fallback,
    }
}

/// The output file made from one message.
#[derive(Debug)]
pub struct ExportFile {
    /// The file name, from the configured pattern.
    pub filename: String,
    /// The file content, from the configured template.
    pub content: String,
    /// The subject used (the header value or its fallback).
    pub subject: String,
    /// Whether no plain-text body could be found.
    pub body_is_empty: bool,
}

/// The subject of a parsed email as the export uses it.
pub open spec fn subject_of(config: Config, mail: ParsedEmailModel) -> Seq<char> {
    or_fallback(mail.subject, config.fallbacks.default_subject@)
}

/// The body of a parsed email as the export uses it.
pub open spec fn body_of(mail: ParsedEmailModel) -> Seq<char> {
    plain_text(email_tree(mail.parts))
}

/// The file name for message number `index`.
pub open spec fn export_filename(config: Config, index: nat, mail: ParsedEmailModel) -> Seq<char> {
    config.filename_for(
        index,
        sanitised(subject_of(config, mail), config.output.max_filename_length as nat),
    )
}

/// The file content for a message.
pub open spec fn export_content(config: Config, mail: ParsedEmailModel) -> Seq<char> {
    config.content_for(
        or_fallback(mail.from, config.fallbacks.default_from@),
        or_fallback(mail.date, config.fallbacks.default_date@),
        subject_of(config, mail),
        body_of(mail),
    )
}

/// `file` is what message number `index` with the parsed form `mail` becomes.
pub open spec fn is_export_of(file: ExportFile, config: Config, index: nat, mail: ParsedEmailModel) -> bool {
    &&& file.filename@ == export_filename(config, index, mail)
    &&& file.content@ == export_content(config, mail)
    &&& file.subject@ == subject_of(config, mail)
    &&& file.body_is_empty == (body_of(mail).len() == 0)
}

fn header_or(value: &Option<String>, fallback: &String) -> (r: String)
    ensures
        r@ == or_fallback(crate::mime::opt_view(*value), fallback@),
{
    match value {
        Some(v) => v.clone(),
        None => fallback.clone(),
    }
}

/// Builds the output file for message number `index` from its parsed form:
/// missing headers take their configured fallbacks, the subject is
/// sanitised into the file name, and the plain-text body fills the
/// template.
pub fn render_email(config: &Config, index: usize, mail: &ParsedEmail) -> (r: ExportFile)
    ensures
        is_export_of(r, *config, index as nat, mail@),
{
    let subject = header_or(&mail.subject, &config.fallbacks.default_subject);
    let from = header_or(&mail.from, &config.fallbacks.default_from);
    let date = header_or(&mail.date, &config.fallbacks.default_date);
    let body = extract_plain_text(mail);
    let safe_subject = sanitise_filename(subject.as_str(), config.output.max_filename_length);
    let filename = config.format_filename(index, safe_subject.as_str());
    let content = config.format_content(from.as_str(), date.as_str(), subject.as_str(), body.as_str());
    let body_is_empty = body.as_str().is_empty();
    ExportFile { filename, content, subject, body_is_empty }
}

/// Parses message number `index` and builds its output file; fails exactly
/// when `mailparse` cannot parse the message.
pub fn prepare_export(config: &Config, index: usize, raw: &RawMessage) -> (r: Result<
    ExportFile,
    MimeParseError,
>)
    ensures
        r is Ok <==> mailparse_email(raw@) is Some,
        r matches Ok(file) ==> is_export_of(file, *config, index as nat, mailparse_email(raw@).unwrap()),
{
    match parse_message(raw) {
        Ok(mail) => Ok(render_email(config, index, &mail)),
        Err(e) => Err(e),
    }
}

/// How many messages were written out and how many were skipped.
#[derive(Debug)]
pub struct ExportTally {
    pub exported: usize,
    pub skipped: usize,
}

/// The counts (written out, skipped) after one more message.
pub open spec fn tally_step(counts: (nat, nat), written: bool) -> (nat, nat) {
    if written {
        (counts.0 + 1, counts.1)
    } else {
        (counts.0, counts.1 + 1)
    }
}

/// The counts after the outcomes `written` (one per message, `true` for a
/// message written out), starting from none.
pub open spec fn tally_after(written: Seq<bool>) -> (nat, nat)
    decreases written.len(),
{
    if written.len() == 0 {
        (0, 0)
    } else {
        tally_step(tally_after(written.drop_last()), written.last())
    }
}

impl View for ExportTally {
    type V = (nat, nat);

    open spec fn view(&self) -> (nat, nat) {
        (self.exported as nat, self.skipped as nat)
    }
}

impl ExportTally {
    /// No message counted yet.
    pub fn new() -> (r: Self)
        ensures
            r@ == tally_after(Seq::empty()),
    {
        ExportTally { exported: 0, skipped: 0 }
    }

    /// Counts one more message, written out or skipped.
    pub fn record(&mut self, written: bool)
        requires
            old(self).exported + old(self).skipped < usize::MAX,
        ensures
            final(self)@ == tally_step(old(self)@, written),
    {
        if written {
            self.exported = self.exported + 1;
        } else {
            self.skipped = self.skipped + 1;
        }
    }
}

/// Every message is counted once: written out or skipped, never both and
/// never neither.
pub proof fn lemma_tally_accounts_for_every_message(written: Seq<bool>)
    ensures
        tally_after(written).0 + tally_after(written).1 == written.len(),
        tally_after(written).0 == written.filter(|w: bool| w).len(),
    decreases written.len(),
{
    reveal_with_fuel(Seq::<_>::filter, 1);
    if written.len() > 0 {
        lemma_tally_accounts_for_every_message(written.drop_last());
    }
}


/// With the default file name pattern, extension and padding, message
/// number `index` is written to its index with at least five digits, an
/// underscore, its sanitised subject and `.txt`.
pub proof fn lemma_default_export_filename(config: Config, index: nat, mail: ParsedEmailModel)
    requires
        config.output.filename_pattern@ == "{index}_{subject}.{ext}"@,
        config.output.file_extension@ == "txt"@,
        config.output.index_padding == 5,
    ensures
        export_filename(config, index, mail) == zero_padded(decimal(index), 5) + "_"@ + sanitised(
            subject_of(config, mail),
            config.output.max_filename_length as nat,
        ) + ".txt"@,
{
    let name = sanitised(subject_of(config, mail), config.output.max_filename_length as nat);
    lemma_sanitised_ascii_is_safe(subject_of(config, mail), config.output.max_filename_length as nat);
    lemma_default_filename(config, index, name);
}


/// With the default template, a file starts with `From: ` and the message's
/// `From` header (or the `From` fallback), and its next line is `Date: `
/// and the `Date` header (or the `Date` fallback), then `Subject: ` and the
/// subject, `---`, an empty line and the plain-text body (for header values
/// without `{` or a backslash, and a body without a backslash).
pub proof fn lemma_default_export_content(config: Config, mail: ParsedEmailModel)
    requires
        config.output.file_template@ == "From: {from}\nDate: {date}\nSubject: {subject}\n---\n\n{body}"@,
        !or_fallback(mail.from, config.fallbacks.default_from@).contains('{'),
        !or_fallback(mail.date, config.fallbacks.default_date@).contains('{'),
        !subject_of(config, mail).contains('{'),
        !or_fallback(mail.from, config.fallbacks.default_from@).contains('\\'),
        !or_fallback(mail.date, config.fallbacks.default_date@).contains('\\'),
        !subject_of(config, mail).contains('\\'),
        !body_of(mail).contains('\\'),
    ensures
        export_content(config, mail) == "From: "@ + or_fallback(mail.from, config.fallbacks.default_from@)
            + "\nDate: "@ + or_fallback(mail.date, config.fallbacks.default_date@) + "\nSubject: "@
            + or_fallback(mail.subject, config.fallbacks.default_subject@) + "\n---\n\n"@ + plain_text(
            email_tree(mail.parts),
        ),
{
    lemma_default_content(
        config,
        or_fallback(mail.from, config.fallbacks.default_from@),
        or_fallback(mail.date, config.fallbacks.default_date@),
        subject_of(config, mail),
        body_of(mail),
    );
}

} // verus!
