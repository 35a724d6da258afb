//! From a source text to its logical statements: lines without their
//! comments, joined where a line ends in a backslash.

use crate::text::{
    chars_of, is_blank, lemma_run_end, lemma_trim_bounds, lemma_utf8_len_concat,
    lemma_utf8_len_subrange, run_end, run_start, run_to, slice_of, text_of, trim, trimmed,
    utf8_len, CharClass,
};
use vstd::prelude::*;

verus! {

/// A logical statement: its text, and the number of the line on which it
/// starts. Lines count from one.
#[derive(Debug, Clone, PartialEq)]
pub struct LogicalStatement {
    pub text: String,
    pub line: usize,
}

/// The mathematical value of a [`LogicalStatement`].
pub struct LogicalStatementView {
    pub text: Seq<char>,
    pub line: usize,
}

impl View for LogicalStatement {
    type V = LogicalStatementView;

    open spec fn view(&self) -> LogicalStatementView {
        LogicalStatementView { text: self.text@, line: self.line }
    }
}

/// The values of a sequence of logical statements.
pub open spec fn statement_views(statements: Seq<LogicalStatement>) -> Seq<LogicalStatementView> {
    Seq::new(statements.len(), |i: int| statements[i]@)
}

/// A line without its comment: what stands before the first `;`.
pub open spec fn strip_comment(line: Seq<char>) -> Seq<char> {
    line.take(run_end(line, 0, CharClass::Code))
}

/// What a line contributes: the line without its comment and without the
/// white space around what is left.
pub open spec fn line_content(line: Seq<char>) -> Seq<char> {
    trim(strip_comment(line))
}

/// Whether the content of a line asks for the next line to be joined to it:
/// it ends in a backslash.
pub open spec fn continues(content: Seq<char>) -> bool {
    content.len() > 0 && content.last() == '\\'
}

/// What a continued line adds to the statement: its content without the
/// backslash and the white space before it, and one space.
pub open spec fn continued_part(content: Seq<char>) -> Seq<char> {
    trim(content.drop_last()).push(' ')
}

/// The logical statement with the given text that starts on the given line.
pub open spec fn statement_on(text: Seq<char>, line: int) -> LogicalStatementView {
    LogicalStatementView { text, line: line as usize }
}

/// The index after the line that ends at `end`: after its line feed, if it
/// has one.
pub open spec fn after_line(text: Seq<char>, end: int) -> int {
    if end < text.len() {
        end + 1
    } else {
        end
    }
}

/// The logical statements of `text` from index `at` on, where `index` lines
/// lie before `at`, `buffer` is what the continued lines before `at` have
/// gathered, and `start` is the number of the line on which `buffer` began.
///
/// A statement is complete at the end of a line that is not continued, and at
/// the end of the text. A statement of white space only is dropped.
pub open spec fn assemble(
    text: Seq<char>,
    at: int,
    index: int,
    buffer: Seq<char>,
    start: int,
) -> Seq<LogicalStatementView>
    decreases text.len() - at,
{
    if at < 0 || at >= text.len() {
        if is_blank(buffer) {
            Seq::empty()
        } else {
            seq![statement_on(buffer, start)]
        }
    } else {
        let end = run_end(text, at, CharClass::LineBody);
        let content = line_content(text.subrange(at, end));
        let first = if buffer.len() == 0 {
            index + 1
        } else {
            start
        };
        proof {
            lemma_run_end(text, at, CharClass::LineBody);
        }
        if continues(content) {
            assemble(text, after_line(text, end), index + 1, buffer + continued_part(content), first)
        } else if is_blank(buffer + content) {
            assemble(text, after_line(text, end), index + 1, Seq::empty(), 0)
        } else {
            seq![statement_on(buffer + content, first)] + assemble(
                text,
                after_line(text, end),
                index + 1,
                Seq::empty(),
                0,
            )
        }
    }
}

/// The logical statements of `text`, in order.
pub open spec fn logical_statements(text: Seq<char>) -> Seq<LogicalStatementView> {
    assemble(text, 0, 0, Seq::empty(), 0)
}

/// Whether `v` holds nothing but white space.
fn blank(v: &Vec<char>) -> (r: bool)
    ensures
        r == is_blank(v@),
{
    run_to(v, 0, CharClass::Blank) >= v.len()
}

/// Appends the characters of `part` to `buffer`.
fn extend(buffer: &mut Vec<char>, part: &Vec<char>)
    ensures
        final(buffer)@ == old(buffer)@ + part@,
{
    let ghost before = buffer@;
    let mut i: usize = 0;
    while i < part.len()
        invariant
            i <= part.len(),
            buffer@ == before + part@.take(i as int),
        decreases part.len() - i,
    {
        buffer.push(part[i]);
        assert(part@.take(i as int + 1) =~= part@.take(i as int).push(part@[i as int]));
        i += 1;
    }
    assert(part@.take(part.len() as int) =~= part@);
}

/// The content of the line `chars[from..to]`.
fn content_of(chars: &Vec<char>, from: usize, to: usize) -> (content: Vec<char>)
    requires
        from <= to <= chars.len(),
    ensures
        content@ == line_content(chars@.subrange(from as int, to as int)),
{
    let line = slice_of(chars, from, to);
    let code = run_to(&line, 0, CharClass::Code);
    let stripped = slice_of(&line, 0, code);
    assert(stripped@ =~= strip_comment(line@));
    trimmed(&stripped)
}

/// Splits a text into its logical statements.
///
/// Each line loses its comment, from the first `;` on, and the white space
/// around what is left. A line that then ends in a backslash is joined with
/// the next: the backslash becomes one space. Statements of white space only
/// are dropped, so blank lines and comment lines give nothing. Each statement
/// has the number of the line on which it starts.
pub fn split_statements(input: &str) -> (statements: Vec<LogicalStatement>)
    ensures
        statement_views(statements@) == logical_statements(input@),
{
    let chars = chars_of(input);
    let ghost text = chars@;
    let mut statements: Vec<LogicalStatement> = Vec::new();
    let mut buffer: Vec<char> = Vec::new();
    let mut start: usize = 0;
    let mut index: usize = 0;
    let mut at: usize = 0;
    proof {
        assert(statement_views(statements@) =~= Seq::<LogicalStatementView>::empty());
        assert(Seq::<LogicalStatementView>::empty() + logical_statements(text)
            =~= logical_statements(text));
    }
    while at < chars.len()
        invariant
            text == chars@,
            at <= chars.len(),
            index <= at,
            logical_statements(text) == statement_views(statements@) + assemble(
                text,
                at as int,
                index as int,
                buffer@,
                start as int,
            ),
        decreases chars.len() - at,
    {
        let ghost done = statement_views(statements@);
        let ghost held = buffer@;
        let end = run_to(&chars, at, CharClass::LineBody);
        let content = content_of(&chars, at, end);
        if buffer.len() == 0 {
            start = index + 1;
        }
        let next = if end < chars.len() {
            end + 1
        } else {
            end
        };
        let n = content.len();
        if n > 0 && content[n - 1] == '\\' {
            let body = slice_of(&content, 0, n - 1);
            assert(body@ =~= content@.drop_last());
            let part = trimmed(&body);
            extend(&mut buffer, &part);
            buffer.push(' ');
            assert(buffer@ =~= held + continued_part(content@)) by {
                assert(continued_part(content@) == part@.push(' '));
            }
        } else {
            extend(&mut buffer, &content);
            if !blank(&buffer) {
                let statement = LogicalStatement {
                    text: text_of(&buffer, 0, buffer.len()),
                    line: start,
                };
                proof {
                    assert(buffer@.subrange(0, buffer@.len() as int) =~= buffer@);
                    assert(statement_views(statements@.push(statement)) =~= done.push(statement@));
                    let rest = assemble(text, next as int, index as int + 1, Seq::empty(), 0);
                    assert(done + (seq![statement@] + rest) =~= done.push(statement@) + rest);
                }
                statements.push(statement);
            }
            buffer = Vec::new();
            start = 0;
        }
        index += 1;
        at = next;
    }
    if !blank(&buffer) {
        let statement = LogicalStatement { text: text_of(&buffer, 0, buffer.len()), line: start };
        proof {
            assert(buffer@.subrange(0, buffer@.len() as int) =~= buffer@);
            assert(statement_views(statements@.push(statement)) =~= statement_views(statements@)
                + seq![statement@]);
        }
        statements.push(statement);
    } else {
        assert(statement_views(statements@) + Seq::<LogicalStatementView>::empty()
            =~= statement_views(statements@));
    }
    statements
}

/// What is trimmed takes no more bytes than the text.
pub proof fn lemma_trim_fits(s: Seq<char>)
    ensures
        utf8_len(trim(s)) <= utf8_len(s),
{
    lemma_trim_bounds(s);
    if !is_blank(s) {
        let first = run_end(s, 0, CharClass::Blank);
        let last = run_start(s, s.len() as int, CharClass::Blank);
        lemma_utf8_len_subrange(s, first, last);
        lemma_utf8_len_subrange(s, 0, last);
    }
}

/// The content of a line takes no more bytes than the line.
pub proof fn lemma_line_content_fits(line: Seq<char>)
    ensures
        utf8_len(line_content(line)) <= utf8_len(line),
{
    lemma_run_end(line, 0, CharClass::Code);
    let code = run_end(line, 0, CharClass::Code);
    lemma_utf8_len_subrange(line, 0, code);
    assert(line.take(code) =~= line.subrange(0, code));
    lemma_trim_fits(strip_comment(line));
}

/// What a continued line adds takes no more bytes than its content.
pub proof fn lemma_continued_part_fits(content: Seq<char>)
    requires
        continues(content),
    ensures
        utf8_len(continued_part(content)) <= utf8_len(content),
{
    let body = content.drop_last();
    lemma_trim_fits(body);
    assert(continued_part(content).drop_last() =~= trim(body));
}

/// No logical statement takes more bytes than the text it comes from, given
/// that what has been gathered takes no more bytes than the text before
/// `at`.
pub proof fn lemma_assemble_fits(
    text: Seq<char>,
    at: int,
    index: int,
    buffer: Seq<char>,
    start: int,
)
    requires
        0 <= at <= text.len(),
        utf8_len(buffer) <= utf8_len(text.take(at)),
    ensures
        forall|i: int|
            0 <= i < assemble(text, at, index, buffer, start).len() ==> utf8_len(
                (#[trigger] assemble(text, at, index, buffer, start)[i]).text,
            ) <= utf8_len(text),
    decreases text.len() - at,
{
    let result = assemble(text, at, index, buffer, start);
    lemma_utf8_len_subrange(text, 0, at);
    if at >= text.len() {
        assert(text.take(at) =~= text);
    } else {
        lemma_run_end(text, at, CharClass::LineBody);
        let end = run_end(text, at, CharClass::LineBody);
        let line = text.subrange(at, end);
        let content = line_content(line);
        let next = after_line(text, end);
        let first = if buffer.len() == 0 {
            index + 1
        } else {
            start
        };
        lemma_line_content_fits(line);
        lemma_utf8_len_subrange(text, at, end);
        lemma_utf8_len_subrange(text, end, next);
        lemma_utf8_len_subrange(text, 0, next);
        assert(utf8_len(text.take(end)) <= utf8_len(text.take(next)));
        if continues(content) {
            lemma_continued_part_fits(content);
            lemma_utf8_len_concat(buffer, continued_part(content));
            lemma_assemble_fits(text, next, index + 1, buffer + continued_part(content), first);
            assert(result == assemble(
                text,
                next,
                index + 1,
                buffer + continued_part(content),
                first,
            ));
        } else {
            lemma_utf8_len_concat(buffer, content);
            assert(utf8_len(Seq::<char>::empty()) == 0);
            lemma_assemble_fits(text, next, index + 1, Seq::empty(), 0);
            let rest = assemble(text, next, index + 1, Seq::empty(), 0);
            if is_blank(buffer + content) {
                assert(result == rest);
            } else {
                let all = seq![statement_on(buffer + content, first)] + rest;
                assert(result == all);
                assert forall|i: int| 0 <= i < all.len() implies utf8_len((#[trigger] all[i]).text)
                    <= utf8_len(text) by {
                    if i > 0 {
                        assert(all[i] == rest[i - 1]);
                    }
                }
            }
        }
    }
}

/// No logical statement of a text takes more bytes than the text.
pub proof fn lemma_statements_fit(text: Seq<char>)
    ensures
        forall|i: int|
            0 <= i < logical_statements(text).len() ==> utf8_len(
                (#[trigger] logical_statements(text)[i]).text,
            ) <= utf8_len(text),
{
    assert(text.take(0) =~= Seq::<char>::empty());
    lemma_assemble_fits(text, 0, 0, Seq::empty(), 0);
}

/// Whether a text holds no line feed.
pub open spec fn is_single_line(s: Seq<char>) -> bool {
    forall|k: int| 0 <= k < s.len() ==> s[k] != '\n'
}

/// What is trimmed from a single line is a single line.
pub proof fn lemma_trim_single_line(s: Seq<char>)
    requires
        is_single_line(s),
    ensures
        is_single_line(trim(s)),
{
    lemma_trim_bounds(s);
}

/// The content of a line is a single line.
pub proof fn lemma_line_content_single_line(text: Seq<char>, at: int)
    requires
        0 <= at <= text.len(),
    ensures
        is_single_line(
            line_content(text.subrange(at, run_end(text, at, CharClass::LineBody))),
        ),
{
    lemma_run_end(text, at, CharClass::LineBody);
    let end = run_end(text, at, CharClass::LineBody);
    let line = text.subrange(at, end);
    assert forall|k: int| 0 <= k < line.len() implies line[k] != '\n' by {
        assert(CharClass::LineBody.admits(text[at + k]));
    }
    lemma_run_end(line, 0, CharClass::Code);
    lemma_trim_single_line(strip_comment(line));
}

/// Every logical statement is a single line, given that what has been
/// gathered is one.
pub proof fn lemma_assemble_single_line(
    text: Seq<char>,
    at: int,
    index: int,
    buffer: Seq<char>,
    start: int,
)
    requires
        0 <= at <= text.len(),
        is_single_line(buffer),
    ensures
        forall|i: int|
            0 <= i < assemble(text, at, index, buffer, start).len() ==> is_single_line(
                (#[trigger] assemble(text, at, index, buffer, start)[i]).text,
            ),
    decreases text.len() - at,
{
    let result = assemble(text, at, index, buffer, start);
    if at < text.len() {
        lemma_run_end(text, at, CharClass::LineBody);
        let end = run_end(text, at, CharClass::LineBody);
        let content = line_content(text.subrange(at, end));
        let next = after_line(text, end);
        let first = if buffer.len() == 0 {
            index + 1
        } else {
            start
        };
        lemma_line_content_single_line(text, at);
        if continues(content) {
            lemma_trim_single_line(content.drop_last());
            assert(is_single_line(buffer + continued_part(content)));
            lemma_assemble_single_line(text, next, index + 1, buffer + continued_part(content), first);
            assert(result == assemble(
                text,
                next,
                index + 1,
                buffer + continued_part(content),
                first,
            ));
        } else {
            lemma_assemble_single_line(text, next, index + 1, Seq::empty(), 0);
            let rest = assemble(text, next, index + 1, Seq::empty(), 0);
            if is_blank(buffer + content) {
                assert(result == rest);
            } else {
                let all = seq![statement_on(buffer + content, first)] + rest;
                assert(result == all);
                assert(is_single_line(buffer + content));
                assert forall|i: int| 0 <= i < all.len() implies is_single_line(
                    (#[trigger] all[i]).text,
                ) by {
                    if i > 0 {
                        assert(all[i] == rest[i - 1]);
                    }
                }
            }
        }
    }
}

/// Every logical statement of a text is a single line: lines are joined with
/// a space, never with a line feed.
pub proof fn lemma_statements_single_line(text: Seq<char>)
    ensures
        forall|i: int|
            0 <= i < logical_statements(text).len() ==> is_single_line(
                (#[trigger] logical_statements(text)[i]).text,
            ),
{
    lemma_assemble_single_line(text, 0, 0, Seq::empty(), 0);
}

} // verus!
