//! Output settings: where files go, how they are named, what they hold, and
//! the header values used when a message lacks one.

use vstd::prelude::*;
use crate::sanitise::DEFAULT_MAX_FILENAME_LENGTH;
use crate::text::{
    decimal, lemma_decimal_value, lemma_flatten_lacks, lemma_replaced_one_piece,
    lemma_replaced_passes_prefix, lemma_replaced_untouched, lemma_zero_padded_digits,
    lemma_zero_padded_value, replace_all, replaced, string_of, zero_padded, zero_padded_decimal,
};

verus! {

/// All settings of an export.
#[derive(Debug)]
pub struct Config {
    pub paths: PathsConfig,
    pub output: OutputConfig,
    pub fallbacks: FallbacksConfig,
}

/// Where the output files go when no directory is given.
#[derive(Debug)]
pub struct PathsConfig {
    pub default_output_dir: String,
}

/// How output files are named and what they contain.
///
/// `filename_pattern` may hold the placeholders `{index}`, `{subject}` and
/// `{ext}`; `file_template` may hold `{from}`, `{date}`, `{subject}` and
/// `{body}`, and the two characters `\n` in it stand for a line break.
#[derive(Debug)]
pub struct OutputConfig {
    pub file_extension: String,
    pub max_filename_length: usize,
    pub filename_pattern: String,
    pub index_padding: usize,
    pub file_template: String,
}

/// Header values used for a message that has no such header.
#[derive(Debug)]
pub struct FallbacksConfig {
    pub default_subject: String,
    pub default_from: String,
    pub default_date: String,
}

impl Default for PathsConfig {
    fn default() -> (r: Self)
        ensures
            r.default_output_dir@ == "./emails"@,
    {
        PathsConfig { default_output_dir: "./emails".to_string() }
    }
}

impl Default for OutputConfig {
    fn default() -> (r: Self)
        ensures
            r.file_extension@ == "txt"@,
            r.max_filename_length == 80,
            r.filename_pattern@ == "{index}_{subject}.{ext}"@,
            r.index_padding == 5,
            r.file_template@ == "From: {from}\nDate: {date}\nSubject: {subject}\n---\n\n{body}"@,
    {
        OutputConfig {
            file_extension: "txt".to_string(),
            max_filename_length: DEFAULT_MAX_FILENAME_LENGTH,
            filename_pattern: "{index}_{subject}.{ext}".to_string(),
            index_padding: 5,
            file_template: "From: {from}\nDate: {date}\nSubject: {subject}\n---\n\n{body}".to_string(),
        }
    }
}

impl Default for FallbacksConfig {
    fn default() -> (r: Self)
        ensures
            r.default_subject@ == "No Subject"@,
            r.default_from@ == "Unknown"@,
            r.default_date@ == "Unknown"@,
    {
        FallbacksConfig {
            default_subject: "No Subject".to_string(),
            default_from: "Unknown".to_string(),
            default_date: "Unknown".to_string(),
        }
    }
}

impl Default for Config {
    fn default() -> (r: Self)
        ensures
            r.paths.default_output_dir@ == "./emails"@,
            r.output.file_extension@ == "txt"@,
            r.output.max_filename_length == 80,
            r.output.filename_pattern@ == "{index}_{subject}.{ext}"@,
            r.output.index_padding == 5,
            r.output.file_template@ == "From: {from}\nDate: {date}\nSubject: {subject}\n---\n\n{body}"@,
            r.fallbacks.default_subject@ == "No Subject"@,
            r.fallbacks.default_from@ == "Unknown"@,
            r.fallbacks.default_date@ == "Unknown"@,
    {
        Config {
            paths: PathsConfig::default(),
            output: OutputConfig::default(),
            fallbacks: FallbacksConfig::default(),
        }
    }
}

impl Config {
    /// The file name for message number `index` with the (already
    /// sanitised) subject `subject`: the pattern with `{index}` replaced by
    /// the zero-padded index, then `{subject}` by the subject, then `{ext}`
    /// by the extension, each replacement applied to the result of the one
    /// before.
    pub open spec fn filename_for(&self, index: nat, subject: Seq<char>) -> Seq<char> {
        replaced(
            replaced(
                replaced(
                    self.output.filename_pattern@,
                    "{index}"@,
                    zero_padded(decimal(index), self.output.index_padding as nat),
                ),
                "{subject}"@,
                subject,
            ),
            "{ext}"@,
            self.output.file_extension@,
        )
    }

    /// The file content for a message: the template with `{from}`, `{date}`,
    /// `{subject}` and `{body}` replaced in that order, each replacement
    /// applied to the result of the one before, and finally every `\n`
    /// (backslash, n) turned into a line break.
    pub open spec fn content_for(
        &self,
        from: Seq<char>,
        date: Seq<char>,
        subject: Seq<char>,
        body: Seq<char>,
    ) -> Seq<char> {
        replaced(
            replaced(
                replaced(
                    replaced(replaced(self.output.file_template@, "{from}"@, from), "{date}"@, date),
                    "{subject}"@,
                    subject,
                ),
                "{body}"@,
                body,
            ),
            "\\n"@,
            "\n"@,
        )
    }

    /// Formats an output filename using the configured pattern.
    pub fn format_filename(&self, index: usize, sanitised_subject: &str) -> (r: String)
        ensures
            r@ == self.filename_for(index as nat, sanitised_subject@),
    {
        let padded = string_of(&zero_padded_decimal(index, self.output.index_padding));
        proof {
            reveal_strlit("{index}");
            reveal_strlit("{subject}");
            reveal_strlit("{ext}");
        }
        let a = replace_all(self.output.filename_pattern.as_str(), "{index}", padded.as_str());
        let b = replace_all(a.as_str(), "{subject}", sanitised_subject);
        replace_all(b.as_str(), "{ext}", self.output.file_extension.as_str())
    }

    /// Formats the output file content using the configured template.
    pub fn format_content(&self, from: &str, date: &str, subject: &str, body: &str) -> (r: String)
        ensures
            r@ == self.content_for(from@, date@, subject@, body@),
    {
        proof {
            reveal_strlit("{from}");
            reveal_strlit("{date}");
            reveal_strlit("{subject}");
            reveal_strlit("{body}");
            reveal_strlit("\\n");
        }
        let a = replace_all(self.output.file_template.as_str(), "{from}", from);
        let b = replace_all(a.as_str(), "{date}", date);
        let c = replace_all(b.as_str(), "{subject}", subject);
        let d = replace_all(c.as_str(), "{body}", body);
        replace_all(d.as_str(), "\\n", "\n")
    }
}


/// With the default file name pattern, extension and padding, message
/// number `index` is named by its index written with at least five digits,
/// an underscore, the subject and `.txt` (for a subject without `{`, which
/// a pattern placeholder would start).
pub proof fn lemma_default_filename(config: Config, index: nat, subject: Seq<char>)
    requires
        config.output.filename_pattern@ == "{index}_{subject}.{ext}"@,
        config.output.file_extension@ == "txt"@,
        config.output.index_padding == 5,
        !subject.contains('{'),
    ensures
        config.filename_for(index, subject) == zero_padded(decimal(index), 5) + "_"@ + subject
            + ".txt"@,
{
    reveal_strlit("{index}_{subject}.{ext}");
    reveal_strlit("{index}");
    reveal_strlit("{subject}");
    reveal_strlit("{ext}");
    reveal_strlit("txt");
    reveal_strlit("_");
    reveal_strlit(".txt");
    let digits = zero_padded(decimal(index), 5);
    let under = seq!['_'];
    let dot = seq!['.'];
    let ext = seq!['t', 'x', 't'];
    let p_index = seq!['{', 'i', 'n', 'd', 'e', 'x', '}'];
    let p_subject = seq!['{', 's', 'u', 'b', 'j', 'e', 'c', 't', '}'];
    let p_ext = seq!['{', 'e', 'x', 't', '}'];
    assert("{index}"@ =~= p_index);
    assert("{subject}"@ =~= p_subject);
    assert("{ext}"@ =~= p_ext);
    assert("txt"@ =~= ext);
    assert("_"@ =~= under);
    assert(".txt"@ =~= dot + ext);
    // The pattern, cut at its placeholders.
    let t0 = seq![p_index, under, p_subject, dot, p_ext];
    lemma_flatten_five(p_index, under, p_subject, dot, p_ext);
    assert(config.output.filename_pattern@ =~= t0.flatten());
    assert(!p_index.skip(1).contains('{') && !p_subject.skip(1).contains('{'));
    assert(!p_ext.skip(1).contains('{'));
    // `{index}`
    let a0 = seq![under, p_subject, dot, p_ext];
    assert(Seq::<Seq<char>>::empty().push(p_index) + a0 =~= t0);
    lemma_replaced_one_piece(Seq::empty(), a0, p_index, digits);
    let t1 = seq![digits, under, p_subject, dot, p_ext];
    assert(Seq::<Seq<char>>::empty().push(digits) + a0 =~= t1);
    // `{subject}`: the digits hold no `{`.
    lemma_zero_padded_digits(index, 5);
    assert(!digits.contains('{'));
    let b1 = seq![digits, under];
    let a1 = seq![dot, p_ext];
    assert(b1.push(p_subject) + a1 =~= t1);
    lemma_replaced_one_piece(b1, a1, p_subject, subject);
    let t2 = seq![digits, under, subject, dot, p_ext];
    assert(b1.push(subject) + a1 =~= t2);
    // `{ext}`
    let b2 = seq![digits, under, subject, dot];
    assert(b2.push(p_ext) + Seq::<Seq<char>>::empty() =~= t2);
    lemma_replaced_one_piece(b2, Seq::empty(), p_ext, ext);
    let t3 = seq![digits, under, subject, dot, ext];
    assert(b2.push(ext) + Seq::<Seq<char>>::empty() =~= t3);
    lemma_flatten_five(digits, under, subject, dot, ext);
    assert(t3.flatten() =~= digits + "_"@ + subject + ".txt"@);
}


proof fn lemma_flatten_five(a: Seq<char>, b: Seq<char>, c: Seq<char>, d: Seq<char>, e: Seq<char>)
    ensures
        seq![a, b, c, d, e].flatten() == a + b + c + d + e,
{
    reveal_with_fuel(Seq::<_>::flatten, 6);
    assert(seq![a, b, c, d, e].flatten() =~= a + b + c + d + e);
}

proof fn lemma_flatten_eight(
    a: Seq<char>,
    b: Seq<char>,
    c: Seq<char>,
    d: Seq<char>,
    e: Seq<char>,
    f: Seq<char>,
    g: Seq<char>,
    h: Seq<char>,
)
    ensures
        seq![a, b, c, d, e, f, g, h].flatten() == a + b + c + d + e + f + g + h,
{
    reveal_with_fuel(Seq::<_>::flatten, 9);
    assert(seq![a, b, c, d, e, f, g, h].flatten() =~= a + b + c + d + e + f + g + h);
}

/// With the default template, and header values holding neither `{` nor a
/// backslash (nor a backslash in the body), a file holds `From: `, the
/// sender, a line break, `Date: `, the date, a line break, `Subject: `, the
/// subject, a line break, `---`, an empty line and the body.
pub proof fn lemma_default_content(
    config: Config,
    from: Seq<char>,
    date: Seq<char>,
    subject: Seq<char>,
    body: Seq<char>,
)
    requires
        config.output.file_template@ == "From: {from}\nDate: {date}\nSubject: {subject}\n---\n\n{body}"@,
        !from.contains('{'),
        !date.contains('{'),
        !subject.contains('{'),
        !from.contains('\\'),
        !date.contains('\\'),
        !subject.contains('\\'),
        !body.contains('\\'),
    ensures
        config.content_for(from, date, subject, body) == "From: "@ + from + "\nDate: "@ + date
            + "\nSubject: "@ + subject + "\n---\n\n"@ + body,
{
    reveal_strlit("From: {from}\nDate: {date}\nSubject: {subject}\n---\n\n{body}");
    reveal_strlit("{from}");
    reveal_strlit("{date}");
    reveal_strlit("{subject}");
    reveal_strlit("{body}");
    reveal_strlit("From: ");
    reveal_strlit("\nDate: ");
    reveal_strlit("\nSubject: ");
    reveal_strlit("\n---\n\n");
    reveal_strlit("\\n");
    reveal_strlit("\n");
    let from_label = seq!['F', 'r', 'o', 'm', ':', ' '];
    let date_label = seq!['\n', 'D', 'a', 't', 'e', ':', ' '];
    let subject_label = seq!['\n', 'S', 'u', 'b', 'j', 'e', 'c', 't', ':', ' '];
    let separator = seq!['\n', '-', '-', '-', '\n', '\n'];
    let p_from = seq!['{', 'f', 'r', 'o', 'm', '}'];
    let p_date = seq!['{', 'd', 'a', 't', 'e', '}'];
    let p_subject = seq!['{', 's', 'u', 'b', 'j', 'e', 'c', 't', '}'];
    let p_body = seq!['{', 'b', 'o', 'd', 'y', '}'];
    assert("{from}"@ =~= p_from);
    assert("{date}"@ =~= p_date);
    assert("{subject}"@ =~= p_subject);
    assert("{body}"@ =~= p_body);
    assert("From: "@ =~= from_label);
    assert("\nDate: "@ =~= date_label);
    assert("\nSubject: "@ =~= subject_label);
    assert("\n---\n\n"@ =~= separator);
    // The template, cut at its placeholders.
    let t0 = seq![from_label, p_from, date_label, p_date, subject_label, p_subject, separator, p_body];
    lemma_flatten_eight(from_label, p_from, date_label, p_date, subject_label, p_subject, separator, p_body);
    assert(config.output.file_template@ =~= t0.flatten());
    // The fixed labels hold no `{`, and the placeholders differ from one
    // another at their second character.
    assert(!from_label.contains('{') && !date_label.contains('{'));
    assert(!subject_label.contains('{') && !separator.contains('{'));
    assert(!p_from.skip(1).contains('{') && !p_date.skip(1).contains('{'));
    assert(!p_subject.skip(1).contains('{') && !p_body.skip(1).contains('{'));
    // `{from}`
    let a0 = seq![date_label, p_date, subject_label, p_subject, separator, p_body];
    assert(seq![from_label].push(p_from) + a0 =~= t0);
    lemma_replaced_one_piece(seq![from_label], a0, p_from, from);
    let t1 = seq![from_label, from, date_label, p_date, subject_label, p_subject, separator, p_body];
    assert(seq![from_label].push(from) + a0 =~= t1);
    // `{date}`
    let b1 = seq![from_label, from, date_label];
    let a1 = seq![subject_label, p_subject, separator, p_body];
    assert(b1.push(p_date) + a1 =~= t1);
    lemma_replaced_one_piece(b1, a1, p_date, date);
    let t2 = seq![from_label, from, date_label, date, subject_label, p_subject, separator, p_body];
    assert(b1.push(date) + a1 =~= t2);
    // `{subject}`
    let b2 = seq![from_label, from, date_label, date, subject_label];
    let a2 = seq![separator, p_body];
    assert(b2.push(p_subject) + a2 =~= t2);
    lemma_replaced_one_piece(b2, a2, p_subject, subject);
    let t3 = seq![from_label, from, date_label, date, subject_label, subject, separator, p_body];
    assert(b2.push(subject) + a2 =~= t3);
    // `{body}`
    let b3 = seq![from_label, from, date_label, date, subject_label, subject, separator];
    let a3 = Seq::<Seq<char>>::empty();
    assert(b3.push(p_body) + a3 =~= t3);
    lemma_replaced_one_piece(b3, a3, p_body, body);
    let t4 = seq![from_label, from, date_label, date, subject_label, subject, separator, body];
    assert(b3.push(body) + a3 =~= t4);
    // No backslash is left for the last replacement.
    assert(!from_label.contains('\\') && !date_label.contains('\\'));
    assert(!subject_label.contains('\\') && !separator.contains('\\'));
    lemma_flatten_lacks(t4, '\\');
    lemma_replaced_untouched(t4.flatten(), seq!['\\', 'n'], seq!['\n']);
    assert("\\n"@ =~= seq!['\\', 'n']);
    assert("\n"@ =~= seq!['\n']);
    lemma_flatten_eight(from_label, from, date_label, date, subject_label, subject, separator, body);
    assert(t4.flatten() =~= "From: "@ + from + "\nDate: "@ + date + "\nSubject: "@ + subject
        + "\n---\n\n"@ + body);
}


/// Under the default pattern a file name starts with the zero-padded index
/// and an underscore, whatever the subject and the extension.
proof fn lemma_default_pattern_prefix(config: Config, index: nat, subject: Seq<char>)
    requires
        config.output.filename_pattern@ == "{index}_{subject}.{ext}"@,
    ensures
        config.filename_for(index, subject).len() > zero_padded(decimal(index), config.output.index_padding as nat).len(),
        config.filename_for(index, subject).take(
            zero_padded(decimal(index), config.output.index_padding as nat).len() as int,
        ) == zero_padded(decimal(index), config.output.index_padding as nat),
        config.filename_for(index, subject)[zero_padded(decimal(index), config.output.index_padding as nat).len() as int]
            == '_',
{
    reveal_strlit("{index}_{subject}.{ext}");
    reveal_strlit("{index}");
    reveal_strlit("{subject}");
    reveal_strlit("{ext}");
    let digits = zero_padded(decimal(index), config.output.index_padding as nat);
    let ext = config.output.file_extension@;
    let under = seq!['_'];
    let dot = seq!['.'];
    let p_index = seq!['{', 'i', 'n', 'd', 'e', 'x', '}'];
    let p_subject = seq!['{', 's', 'u', 'b', 'j', 'e', 'c', 't', '}'];
    let p_ext = seq!['{', 'e', 'x', 't', '}'];
    assert("{index}"@ =~= p_index);
    assert("{subject}"@ =~= p_subject);
    assert("{ext}"@ =~= p_ext);
    let t0 = seq![p_index, under, p_subject, dot, p_ext];
    lemma_flatten_five(p_index, under, p_subject, dot, p_ext);
    assert(config.output.filename_pattern@ =~= t0.flatten());
    assert(!p_subject.skip(1).contains('{') && !p_ext.skip(1).contains('{'));
    let a0 = seq![under, p_subject, dot, p_ext];
    assert(Seq::<Seq<char>>::empty().push(p_index) + a0 =~= t0);
    lemma_replaced_one_piece(Seq::empty(), a0, p_index, digits);
    let t1 = seq![digits, under, p_subject, dot, p_ext];
    assert(Seq::<Seq<char>>::empty().push(digits) + a0 =~= t1);
    lemma_flatten_five(digits, under, p_subject, dot, p_ext);
    // The digits and the underscore hold no `{`, so the later replacements
    // leave them in front.
    lemma_zero_padded_digits(index, config.output.index_padding as nat);
    let front = digits + under;
    assert(!front.contains('{')) by {
        assert forall|i: int| 0 <= i < front.len() implies front[i] != '{' by {
            if i < digits.len() {
                assert(front[i] == digits[i]);
            }
        }
    }
    let rest = p_subject + dot + p_ext;
    assert(t1.flatten() =~= front + rest);
    lemma_replaced_passes_prefix(front, rest, p_subject, subject);
    let rest2 = replaced(rest, p_subject, subject);
    lemma_replaced_passes_prefix(front, rest2, p_ext, ext);
    let name = front + replaced(rest2, p_ext, ext);
    assert(config.filename_for(index, subject) == name);
    assert(name.take(digits.len() as int) =~= digits);
    assert(name[digits.len() as int] == '_');
}

/// Under the default file name pattern, whatever the padding and the
/// extension, two different message numbers never give the same file name:
/// the digits before the first underscore are the message number.
pub proof fn lemma_default_pattern_names_differ(
    config: Config,
    i: nat,
    j: nat,
    s: Seq<char>,
    t: Seq<char>,
)
    requires
        config.output.filename_pattern@ == "{index}_{subject}.{ext}"@,
        i != j,
    ensures
        config.filename_for(i, s) != config.filename_for(j, t),
{
    let w = config.output.index_padding as nat;
    let di = zero_padded(decimal(i), w);
    let dj = zero_padded(decimal(j), w);
    let a = config.filename_for(i, s);
    let b = config.filename_for(j, t);
    lemma_default_pattern_prefix(config, i, s);
    lemma_default_pattern_prefix(config, j, t);
    lemma_zero_padded_digits(i, w);
    lemma_zero_padded_digits(j, w);
    if a == b {
        // The first underscore sits at the same place in both names.
        if di.len() < dj.len() {
            assert(a[di.len() as int] == '_');
            assert(b.take(dj.len() as int)[di.len() as int] == dj[di.len() as int]);
            assert(false);
        } else if dj.len() < di.len() {
            assert(b[dj.len() as int] == '_');
            assert(a.take(di.len() as int)[dj.len() as int] == di[dj.len() as int]);
            assert(false);
        }
        assert(di == dj);
        lemma_zero_padded_value(decimal(i), w);
        lemma_zero_padded_value(decimal(j), w);
        lemma_decimal_value(i);
        lemma_decimal_value(j);
        assert(false);
    }
}

} // verus!
