//! How a JSON document pane colours its text: a scan of the text into runs,
//! each with the role its colour comes from, and the split of those runs
//! into lines.

use vstd::prelude::*;

use crate::text::{chars_of, contains, contains_exec, lower, lower_chars};

verus! {

/// What a run of JSON text is, and so which colour it is drawn in.
#[derive(Clone, Copy, Debug, PartialEq, Eq, Structural)]
pub enum JsonRole {
    Key,
    String,
    /// A string under a key that names a path or a package.
    Path,
    Punctuation,
    Number,
    Literal,
    Plain,
}

/// A run of the text, by character positions `start..end`.
#[derive(Clone, Copy, Debug, PartialEq, Eq, Structural)]
pub struct JsonSpan {
    pub start: usize,
    pub end: usize,
    pub role: JsonRole,
}

/// `u8::is_ascii_whitespace`.
pub open spec fn json_ws(c: char) -> bool {
    c == ' ' || c == '\t' || c == '\n' || c == '\x0C' || c == '\r'
}

pub open spec fn number_char(c: char) -> bool {
    ('0' <= c && c <= '9') || c == '.' || c == 'e' || c == 'E' || c == '+' || c == '-'
}

/// One past the closing quote of a string whose body starts at `i`, or the
/// end of the text when it never closes. A backslash takes the character
/// after it along.
pub open spec fn string_end(t: Seq<char>, i: int) -> int
    decreases t.len() - i,
{
    if i >= t.len() {
        t.len() as int
    } else if t[i] == '\\' {
        string_end(t, if i + 2 <= t.len() { i + 2 } else { t.len() as int })
    } else if t[i] == '"' {
        i + 1
    } else {
        string_end(t, i + 1)
    }
}

/// The first position at or after `i` that is not whitespace.
pub open spec fn skip_ws(t: Seq<char>, i: int) -> int
    decreases t.len() - i,
{
    if i >= t.len() || !json_ws(t[i]) {
        i
    } else {
        skip_ws(t, i + 1)
    }
}

/// The first position at or after `i` that cannot continue a number.
pub open spec fn number_end(t: Seq<char>, i: int) -> int
    decreases t.len() - i,
{
    if i >= t.len() || !number_char(t[i]) {
        i
    } else {
        number_end(t, i + 1)
    }
}

pub open spec fn word_at(t: Seq<char>, i: int, word: Seq<char>) -> bool {
    i + word.len() <= t.len() && t.subrange(i, i + word.len()) == word
}

/// A key whose strings are paths: it names a path or a package.
pub open spec fn path_key(key: Seq<char>) -> bool {
    contains(lower(key), "path"@) || contains(lower(key), "package"@)
}

/// The run that starts at `start`: where it ends, its role, and the key the
/// strings after it belong to.
pub open spec fn json_token(t: Seq<char>, start: int, key: Seq<char>) -> (int, JsonRole, Seq<char>) {
    let c = t[start];
    if c == '"' {
        let end = string_end(t, start + 1);
        let after = skip_ws(t, end);
        if after < t.len() && t[after] == ':' {
            (end, JsonRole::Key, if end >= start + 2 { t.subrange(start + 1, end - 1) } else { key })
        } else {
            (end, if path_key(key) { JsonRole::Path } else { JsonRole::String }, key)
        }
    } else if c == '{' || c == '}' || c == '[' || c == ']' || c == ':' || c == ',' {
        (start + 1, JsonRole::Punctuation, key)
    } else if c == '-' || ('0' <= c && c <= '9') {
        (number_end(t, start + 1), JsonRole::Number, key)
    } else if word_at(t, start, seq!['t', 'r', 'u', 'e']) {
        (start + 4, JsonRole::Literal, key)
    } else if word_at(t, start, seq!['f', 'a', 'l', 's', 'e']) {
        (start + 5, JsonRole::Literal, key)
    } else if word_at(t, start, seq!['n', 'u', 'l', 'l']) {
        (start + 4, JsonRole::Literal, key)
    } else if json_ws(c) {
        (skip_ws(t, start + 1), JsonRole::Plain, key)
    } else {
        (start + 1, JsonRole::Plain, key)
    }
}

proof fn lemma_string_end(t: Seq<char>, i: int)
    requires
        0 <= i,
    ensures
        i <= string_end(t, i) <= t.len() || (i > t.len() && string_end(t, i) == t.len()),
        string_end(t, i) <= t.len(),
    decreases t.len() - i,
{
    if i < t.len() {
        if t[i] == '\\' {
            lemma_string_end(t, if i + 2 <= t.len() { i + 2 } else { t.len() as int });
        } else if t[i] != '"' {
            lemma_string_end(t, i + 1);
        }
    }
}

proof fn lemma_skip_ws(t: Seq<char>, i: int)
    requires
        0 <= i <= t.len(),
    ensures
        i <= skip_ws(t, i) <= t.len(),
    decreases t.len() - i,
{
    if i < t.len() && json_ws(t[i]) {
        lemma_skip_ws(t, i + 1);
    }
}

proof fn lemma_number_end(t: Seq<char>, i: int)
    requires
        0 <= i <= t.len(),
    ensures
        i <= number_end(t, i) <= t.len(),
    decreases t.len() - i,
{
    if i < t.len() && number_char(t[i]) {
        lemma_number_end(t, i + 1);
    }
}

/// Every run is non-empty and ends inside the text.
pub proof fn lemma_token_advances(t: Seq<char>, start: int, key: Seq<char>)
    requires
        0 <= start < t.len(),
    ensures
        start < json_token(t, start, key).0 <= t.len(),
{
    lemma_string_end(t, start + 1);
    lemma_string_end(t, start + 1);
    if start + 1 <= t.len() {
        lemma_skip_ws(t, start + 1);
        lemma_number_end(t, start + 1);
    }
    let end = string_end(t, start + 1);
    if 0 <= end <= t.len() {
        lemma_skip_ws(t, end);
    }
}

/// The runs of `t` from `start` on, the strings after it belonging to `key`.
pub open spec fn json_tokens(t: Seq<char>, start: int, key: Seq<char>) -> Seq<JsonSpan>
    decreases t.len() - start,
{
    if start < 0 || start >= t.len() {
        Seq::empty()
    } else {
        let (end, role, next) = json_token(t, start, key);
        proof {
            lemma_token_advances(t, start, key);
        }
        seq![JsonSpan { start: start as usize, end: end as usize, role }] + json_tokens(t, end, next)
    }
}

/// A run that starts on the word `true`, `false` or `null` is exactly that
/// word, drawn as a literal; one that starts on a quote is a key, string or
/// path, and a key exactly when the next character after it that is not
/// whitespace is a colon; on a brace, bracket, colon or comma, that one character as
/// punctuation; on a minus sign or a digit, a number; on whitespace, plain.
pub open spec fn literal_run_ok(t: Seq<char>, span: JsonSpan) -> bool {
    let s = span.start as int;
    let c = t[s];
    &&& c == '"' ==> span.role == JsonRole::Key || span.role == JsonRole::String || span.role
        == JsonRole::Path
    &&& c == '"' ==> (span.role == JsonRole::Key <==> exists|p: int|
        span.end <= p < t.len() && t[p] == ':' && forall|q: int|
            span.end <= q < p ==> (#[trigger] t[q] == ' ' || t[q] == '\t' || t[q] == '\n' || t[q] == '\x0C'
                || t[q] == '\r'))
    &&& (c == '{' || c == '}' || c == '[' || c == ']' || c == ':' || c == ',') ==> span.end == s + 1
        && span.role == JsonRole::Punctuation
    &&& (c == '-' || ('0' <= c && c <= '9')) ==> span.role == JsonRole::Number
    &&& (c == ' ' || c == '\t' || c == '\n' || c == '\r') ==> span.role == JsonRole::Plain
    &&& (s + 4 <= t.len() && t.subrange(s, s + 4) == seq!['t', 'r', 'u', 'e']) ==> span.end == s + 4
        && span.role == JsonRole::Literal
    &&& (s + 5 <= t.len() && t.subrange(s, s + 5) == seq!['f', 'a', 'l', 's', 'e']) ==> span.end == s + 5
        && span.role == JsonRole::Literal
    &&& (s + 4 <= t.len() && t.subrange(s, s + 4) == seq!['n', 'u', 'l', 'l']) ==> span.end == s + 4
        && span.role == JsonRole::Literal
}

proof fn lemma_skip_ws_stops(t: Seq<char>, i: int)
    requires
        0 <= i <= t.len(),
    ensures
        i <= skip_ws(t, i) <= t.len(),
        forall|q: int| i <= q < skip_ws(t, i) ==> json_ws(#[trigger] t[q]),
        skip_ws(t, i) < t.len() ==> !json_ws(t[skip_ws(t, i)]),
    decreases t.len() - i,
{
    if i < t.len() && json_ws(t[i]) {
        lemma_skip_ws_stops(t, i + 1);
    }
}

proof fn lemma_literal_runs_from(t: Seq<char>, start: int, key: Seq<char>)
    requires
        0 <= start,
        t.len() <= usize::MAX,
    ensures
        forall|i: int|
            0 <= i < json_tokens(t, start, key).len() ==> literal_run_ok(t, #[trigger] json_tokens(t, start, key)[i]),
    decreases t.len() - start,
{
    if start < t.len() {
        let (end, role, next) = json_token(t, start, key);
        lemma_token_advances(t, start, key);
        lemma_literal_runs_from(t, end, next);
        let spans = json_tokens(t, start, key);
        let first = JsonSpan { start: start as usize, end: end as usize, role };
        assert(spans[0] == first);
        let c = t[start];
        if start + 4 <= t.len() && t.subrange(start, start + 4) == seq!['t', 'r', 'u', 'e'] {
            assert(c == t.subrange(start, start + 4)[0]);
        }
        if start + 5 <= t.len() && t.subrange(start, start + 5) == seq!['f', 'a', 'l', 's', 'e'] {
            assert(c == t.subrange(start, start + 5)[0]);
            if start + 4 <= t.len() {
                assert(t.subrange(start, start + 4)[0] == c);
            }
        }
        if start + 4 <= t.len() && t.subrange(start, start + 4) == seq!['n', 'u', 'l', 'l'] {
            assert(c == t.subrange(start, start + 4)[0]);
            if start + 5 <= t.len() {
                assert(t.subrange(start, start + 5)[0] == c);
            }
        }
        if c == '"' {
            lemma_string_end(t, start + 1);
            lemma_skip_ws_stops(t, end);
            let after = skip_ws(t, end);
            if role == JsonRole::Key {
                assert(after < t.len() && t[after] == ':');
                assert forall|q: int| end <= q < after implies (#[trigger] t[q] == ' ' || t[q] == '\t' || t[q]
                    == '\n' || t[q] == '\x0C' || t[q] == '\r') by {
                    assert(json_ws(t[q]));
                }
            } else {
                assert(!(after < t.len() && t[after] == ':'));
                if exists|p: int|
                    end <= p < t.len() && t[p] == ':' && forall|q: int|
                        end <= q < p ==> (#[trigger] t[q] == ' ' || t[q] == '\t' || t[q] == '\n' || t[q]
                            == '\x0C' || t[q] == '\r') {
                    let p = choose|p: int|
                        end <= p < t.len() && t[p] == ':' && forall|q: int|
                            end <= q < p ==> (#[trigger] t[q] == ' ' || t[q] == '\t' || t[q] == '\n' || t[q]
                                == '\x0C' || t[q] == '\r');
                    if after < p {
                        assert(t[after] == ' ' || t[after] == '\t' || t[after] == '\n' || t[after] == '\x0C'
                            || t[after] == '\r');
                    } else if after > p {
                        assert(json_ws(t[p]));
                    }
                }
            }
        }
        assert(literal_run_ok(t, first));
        assert forall|i: int| 0 <= i < spans.len() implies literal_run_ok(t, #[trigger] spans[i]) by {
            if i > 0 {
                assert(spans[i] == json_tokens(t, end, next)[i - 1]);
            }
        }
    }
}

/// The words `true`, `false` and `null` are drawn as literals: every run of
/// a document that starts on one of them (which only happens outside a
/// string) is exactly that word, with the role `Literal`.
pub proof fn lemma_literal_words_are_literals(t: Seq<char>)
    requires
        t.len() <= usize::MAX,
    ensures
        forall|i: int|
            0 <= i < json_tokens(t, 0, Seq::empty()).len() ==> literal_run_ok(
                t,
                #[trigger] json_tokens(t, 0, Seq::empty())[i],
            ),
{
    lemma_literal_runs_from(t, 0, Seq::empty());
}

fn string_end_exec(t: &Vec<char>, i: usize) -> (out: usize)
    ensures
        out == string_end(t@, i as int),
{
    let mut k = i;
    while k < t.len()
        invariant
            string_end(t@, k as int) == string_end(t@, i as int),
        decreases t.len() - k,
    {
        if t[k] == '\\' {
            k = if t.len() - k >= 2 { k + 2 } else { t.len() };
        } else if t[k] == '"' {
            return k + 1;
        } else {
            k += 1;
        }
    }
    t.len()
}

fn skip_ws_exec(t: &Vec<char>, i: usize) -> (out: usize)
    ensures
        out == skip_ws(t@, i as int),
{
    let mut k = i;
    while k < t.len() && (t[k] == ' ' || t[k] == '\t' || t[k] == '\n' || t[k] == '\x0C' || t[k]
        == '\r')
        invariant
            skip_ws(t@, k as int) == skip_ws(t@, i as int),
        decreases t.len() - k,
    {
        k += 1;
    }
    k
}

fn number_end_exec(t: &Vec<char>, i: usize) -> (out: usize)
    ensures
        out == number_end(t@, i as int),
{
    let mut k = i;
    while k < t.len() && (('0' <= t[k] && t[k] <= '9') || t[k] == '.' || t[k] == 'e' || t[k] == 'E'
        || t[k] == '+' || t[k] == '-')
        invariant
            number_end(t@, k as int) == number_end(t@, i as int),
        decreases t.len() - k,
    {
        k += 1;
    }
    k
}

fn word_at_exec(t: &Vec<char>, i: usize, word: &Vec<char>) -> (out: bool)
    ensures
        out == word_at(t@, i as int, word@),
{
    if word.len() > t.len() || i > t.len() - word.len() {
        return false;
    }
    let mut k: usize = 0;
    while k < word.len()
        invariant
            k <= word.len(),
            i + word.len() <= t.len(),
            forall|j: int| 0 <= j < k ==> t@[i + j] == #[trigger] word@[j],
        decreases word.len() - k,
    {
        if t[i + k] != word[k] {
            assert(t@.subrange(i as int, i + word.len())[k as int] != word@[k as int]);
            return false;
        }
        k += 1;
    }
    assert(t@.subrange(i as int, i + word.len()) =~= word@);
    true
}

/// The runs of a JSON document's text, in order, each with the role its
/// colour comes from. A string followed by `:` is a key; a string under a key
/// naming a path or a package is a path; positions count characters.
pub fn chimp_json_spans(text: &str) -> (out: Vec<JsonSpan>)
    ensures
        out@ == json_tokens(text@, 0, Seq::empty()),
{
    let t = chars_of(text);
    let mut spans: Vec<JsonSpan> = Vec::new();
    let mut key: Vec<char> = Vec::new();
    let mut offset: usize = 0;
    let true_word = chars_of("true");
    let false_word = chars_of("false");
    let null_word = chars_of("null");
    assert(true_word@ =~= seq!['t', 'r', 'u', 'e']) by {
        reveal_strlit("true");
    }
    assert(false_word@ =~= seq!['f', 'a', 'l', 's', 'e']) by {
        reveal_strlit("false");
    }
    assert(null_word@ =~= seq!['n', 'u', 'l', 'l']) by {
        reveal_strlit("null");
    }
    while offset < t.len()
        invariant
            t@ == text@,
            offset <= t.len(),
            true_word@ == seq!['t', 'r', 'u', 'e'],
            false_word@ == seq!['f', 'a', 'l', 's', 'e'],
            null_word@ == seq!['n', 'u', 'l', 'l'],
            spans@ + json_tokens(t@, offset as int, key@) == json_tokens(t@, 0, Seq::empty()),
        decreases t.len() - offset,
    {
        let start = offset;
        let c = t[start];
        proof {
            lemma_token_advances(t@, start as int, key@);
        }
        let ghost old_key = key@;
        let ghost token = json_token(t@, start as int, key@);
        let (end, role) = if c == '"' {
            let end = string_end_exec(&t, start + 1);
            proof {
                lemma_string_end(t@, start + 1);
                lemma_skip_ws(t@, end as int);
            }
            let after = skip_ws_exec(&t, end);
            if after < t.len() && t[after] == ':' {
                if end >= start + 2 {
                    let mut k: Vec<char> = Vec::new();
                    let mut j = start + 1;
                    while j < end - 1
                        invariant
                            start + 1 <= j <= end - 1,
                            end <= t.len(),
                            k@ == t@.subrange(start + 1, j as int),
                        decreases end - 1 - j,
                    {
                        k.push(t[j]);
                        j += 1;
                    }
                    key = k;
                }
                (end, JsonRole::Key)
            } else {
                let lowered = lower_chars(&key);
                let is_path = contains_exec(&lowered, &chars_of("path")) || contains_exec(
                    &lowered,
                    &chars_of("package"),
                );
                (end, if is_path { JsonRole::Path } else { JsonRole::String })
            }
        } else if c == '{' || c == '}' || c == '[' || c == ']' || c == ':' || c == ',' {
            (start + 1, JsonRole::Punctuation)
        } else if c == '-' || ('0' <= c && c <= '9') {
            (number_end_exec(&t, start + 1), JsonRole::Number)
        } else if word_at_exec(&t, start, &true_word) {
            (start + 4, JsonRole::Literal)
        } else if word_at_exec(&t, start, &false_word) {
            (start + 5, JsonRole::Literal)
        } else if word_at_exec(&t, start, &null_word) {
            (start + 4, JsonRole::Literal)
        } else if c == ' ' || c == '\t' || c == '\n' || c == '\x0C' || c == '\r' {
            (skip_ws_exec(&t, start + 1), JsonRole::Plain)
        } else {
            (start + 1, JsonRole::Plain)
        };
        assert(end == token.0 && role == token.1 && key@ == token.2);
        let span = JsonSpan { start, end, role };
        let ghost before = spans@;
        spans.push(span);
        proof {
            assert(json_tokens(t@, start as int, old_key) == seq![span] + json_tokens(
                t@,
                end as int,
                key@,
            ));
            assert(spans@ + json_tokens(t@, end as int, key@) =~= before + json_tokens(
                t@,
                start as int,
                old_key,
            ));
        }
        offset = end;
    }
    spans
}

// ---------------------------------------------------------------------------
// The runs tile the text
// ---------------------------------------------------------------------------

/// `spans` cover `from..to` exactly: each is non-empty and starts where the
/// one before it ended.
pub open spec fn tiles(spans: Seq<JsonSpan>, from: int, to: int) -> bool
    decreases spans.len(),
{
    if spans.len() == 0 {
        from == to
    } else {
        spans[0].start == from && spans[0].start < spans[0].end && tiles(
            spans.drop_first(),
            spans[0].end as int,
            to,
        )
    }
}

/// The runs of a document cover its text exactly, in order, with nothing
/// left out and nothing twice.
pub proof fn lemma_json_tokens_tile(t: Seq<char>, start: int, key: Seq<char>)
    requires
        0 <= start <= t.len(),
        t.len() <= usize::MAX,
    ensures
        tiles(json_tokens(t, start, key), start, t.len() as int),
    decreases t.len() - start,
{
    if start < t.len() {
        let (end, role, next) = json_token(t, start, key);
        lemma_token_advances(t, start, key);
        lemma_json_tokens_tile(t, end, next);
        let spans = json_tokens(t, start, key);
        assert(spans.drop_first() == json_tokens(t, end, next));
    }
}

// ---------------------------------------------------------------------------
// Lines
// ---------------------------------------------------------------------------

/// A line: its pieces of text, each with its role.
pub open spec fn line_text(line: Seq<(Seq<char>, JsonRole)>) -> Seq<char>
    decreases line.len(),
{
    if line.len() == 0 {
        Seq::empty()
    } else {
        line_text(line.drop_last()) + line.last().0
    }
}

pub open spec fn line_texts(lines: Seq<Seq<(Seq<char>, JsonRole)>>) -> Seq<Seq<char>> {
    lines.map_values(|line: Seq<(Seq<char>, JsonRole)>| line_text(line))
}

pub open spec fn append_piece(
    line: Seq<(Seq<char>, JsonRole)>,
    piece: Seq<char>,
    role: JsonRole,
) -> Seq<(Seq<char>, JsonRole)> {
    if piece.len() > 0 {
        line.push((piece, role))
    } else {
        line
    }
}

/// The lines so far and the line still open, after the pieces of one run
/// (its text split at newlines) are added: every newline closes a line.
pub open spec fn add_pieces(
    lines: Seq<Seq<(Seq<char>, JsonRole)>>,
    current: Seq<(Seq<char>, JsonRole)>,
    pieces: Seq<Seq<char>>,
    role: JsonRole,
) -> (Seq<Seq<(Seq<char>, JsonRole)>>, Seq<(Seq<char>, JsonRole)>)
    decreases pieces.len(),
{
    if pieces.len() == 0 {
        (lines, current)
    } else {
        let line = append_piece(current, pieces[0], role);
        if pieces.len() == 1 {
            (lines, line)
        } else {
            add_pieces(lines.push(line), Seq::empty(), pieces.drop_first(), role)
        }
    }
}

pub open spec fn span_text(t: Seq<char>, span: JsonSpan) -> Seq<char> {
    t.subrange(span.start as int, span.end as int)
}

pub open spec fn lines_state(t: Seq<char>, spans: Seq<JsonSpan>) -> (
    Seq<Seq<(Seq<char>, JsonRole)>>,
    Seq<(Seq<char>, JsonRole)>,
)
    decreases spans.len(),
{
    if spans.len() == 0 {
        (Seq::empty(), Seq::empty())
    } else {
        let (lines, current) = lines_state(t, spans.drop_last());
        add_pieces(lines, current, crate::text::split(span_text(t, spans.last()), '\n'), spans.last().role)
    }
}

/// The runs of `t` split into lines at its newlines, each piece keeping its
/// role, empty pieces dropped: as `str::lines` counts lines, and at least
/// one.
pub open spec fn json_lines(t: Seq<char>, spans: Seq<JsonSpan>) -> Seq<Seq<(Seq<char>, JsonRole)>> {
    let (lines, current) = lines_state(t, spans);
    if current.len() > 0 || lines.len() == 0 {
        lines.push(current)
    } else {
        lines
    }
}

pub open spec fn piece_views(line: Seq<(String, JsonRole)>) -> Seq<(Seq<char>, JsonRole)> {
    line.map_values(|p: (String, JsonRole)| (p.0@, p.1))
}

pub open spec fn lines_views(lines: Seq<Vec<(String, JsonRole)>>) -> Seq<Seq<(Seq<char>, JsonRole)>> {
    lines.map_values(|line: Vec<(String, JsonRole)>| piece_views(line@))
}

proof fn lemma_add_pieces_step(
    lines: Seq<Seq<(Seq<char>, JsonRole)>>,
    current: Seq<(Seq<char>, JsonRole)>,
    pieces: Seq<Seq<char>>,
    role: JsonRole,
)
    requires
        pieces.len() > 0,
    ensures
        add_pieces(lines, current, pieces, role) == if pieces.len() == 1 {
            (lines, append_piece(current, pieces[0], role))
        } else {
            add_pieces(lines.push(append_piece(current, pieces[0], role)), Seq::empty(), pieces.drop_first(), role)
        },
{
}

fn append_piece_exec(line: &mut Vec<(String, JsonRole)>, piece: &Vec<char>, role: JsonRole)
    ensures
        piece_views(final(line)@) == append_piece(piece_views(old(line)@), piece@, role),
{
    if piece.len() > 0 {
        let ghost before = line@;
        let text = crate::text::string_of(piece);
        line.push((text, role));
        assert(piece_views(line@) =~= piece_views(before).push((piece@, role)));
    }
}

/// Split a document's runs into lines at its newlines, each piece keeping
/// the role of the run it came from.
pub fn chimp_json_lines(text: &str, spans: &Vec<JsonSpan>) -> (out: Vec<Vec<(String, JsonRole)>>)
    requires
        forall|i: int|
            0 <= i < spans@.len() ==> #[trigger] spans@[i].start <= spans@[i].end <= text@.len(),
    ensures
        lines_views(out@) == json_lines(text@, spans@),
{
    let t = chars_of(text);
    let mut lines: Vec<Vec<(String, JsonRole)>> = Vec::new();
    let mut current: Vec<(String, JsonRole)> = Vec::new();
    let mut k: usize = 0;
    while k < spans.len()
        invariant
            k <= spans.len(),
            t@ == text@,
            forall|i: int|
                0 <= i < spans@.len() ==> #[trigger] spans@[i].start <= spans@[i].end <= text@.len(),
            (lines_views(lines@), piece_views(current@)) == lines_state(t@, spans@.take(k as int)),
        decreases spans.len() - k,
    {
        let span = spans[k];
        let piece_text = crate::text::sub_chars(&t, span.start, span.end);
        let pieces = crate::text::split_chars(&piece_text, '\n');
        let ghost all = crate::text::split(piece_text@, '\n');
        proof {
            assert(spans@.take(k + 1).drop_last() =~= spans@.take(k as int));
            assert(spans@.take(k + 1).last() == span);
            lemma_split_nonempty(piece_text@, '\n');
            assert(piece_text@ =~= span_text(t@, span));
            assert(all.skip(0) =~= all);
            assert(lines_state(t@, spans@.take(k + 1)) == add_pieces(
                lines_state(t@, spans@.take(k as int)).0,
                lines_state(t@, spans@.take(k as int)).1,
                all,
                span.role,
            ));
        }
        let mut p: usize = 0;
        while p < pieces.len()
            invariant
                0 <= p <= pieces.len(),
                pieces@.len() == all.len(),
                all.len() > 0,
                forall|i: int| 0 <= i < pieces@.len() ==> #[trigger] pieces@[i]@ == all[i],
                add_pieces(lines_views(lines@), piece_views(current@), all.skip(p as int), span.role)
                    == lines_state(t@, spans@.take(k + 1)),
            decreases pieces.len() - p,
        {
            proof {
                lemma_add_pieces_step(
                    lines_views(lines@),
                    piece_views(current@),
                    all.skip(p as int),
                    span.role,
                );
                assert(all.skip(p as int)[0] == all[p as int]);
                assert(all.skip(p as int).drop_first() =~= all.skip(p + 1));
            }
            append_piece_exec(&mut current, &pieces[p], span.role);
            if p + 1 < pieces.len() {
                let ghost before = lines@;
                let line = current;
                lines.push(line);
                current = Vec::new();
                proof {
                    assert(lines_views(lines@) =~= lines_views(before).push(piece_views(line@)));
                    assert(piece_views(current@) =~= Seq::<(Seq<char>, JsonRole)>::empty());
                }
            } else {
                proof {
                    assert(all.skip(p as int).len() == 1);
                    assert(all.skip(p + 1).len() == 0);
                }
            }
            p += 1;
        }
        k += 1;
    }
    assert(spans@.take(k as int) =~= spans@);
    if current.len() > 0 || lines.len() == 0 {
        let ghost before = lines@;
        let line = current;
        lines.push(line);
        assert(lines_views(lines@) =~= lines_views(before).push(piece_views(line@)));
    }
    lines
}

proof fn lemma_split_nonempty(s: Seq<char>, sep: char)
    ensures
        crate::text::split(s, sep).len() > 0,
{
}

// ---------------------------------------------------------------------------
// The lines are the lines of the text
// ---------------------------------------------------------------------------

/// The text of `spans`, one after the other.
pub open spec fn joined_text(t: Seq<char>, spans: Seq<JsonSpan>) -> Seq<char>
    decreases spans.len(),
{
    if spans.len() == 0 {
        Seq::empty()
    } else {
        span_text(t, spans[0]) + joined_text(t, spans.drop_first())
    }
}

/// `t` split at its newlines, a last empty piece after a closing newline
/// dropped: the lines of `str::lines` for text without carriage returns,
/// and one empty line for empty text.
pub open spec fn text_lines(t: Seq<char>) -> Seq<Seq<char>> {
    let parts = crate::text::split(t, '\n');
    if parts.len() > 1 && parts.last().len() == 0 {
        parts.drop_last()
    } else {
        parts
    }
}

pub open spec fn pieces_nonempty(line: Seq<(Seq<char>, JsonRole)>) -> bool {
    forall|i: int| 0 <= i < line.len() ==> (#[trigger] line[i]).0.len() > 0
}

proof fn lemma_split_state_concat(a: Seq<char>, b: Seq<char>, sep: char)
    ensures
        ({
            let (da, oa) = crate::text::split_state(a, sep);
            let (db, ob) = crate::text::split_state(b, sep);
            let (dab, oab) = crate::text::split_state(a + b, sep);
            if db.len() == 0 {
                dab == da && oab == oa + ob
            } else {
                dab == da.push(oa + db[0]) + db.drop_first() && oab == ob
            }
        }),
    decreases b.len(),
{
    let (da, oa) = crate::text::split_state(a, sep);
    if b.len() == 0 {
        assert(a + b =~= a);
        assert(oa + Seq::<char>::empty() =~= oa);
    } else {
        let b2 = b.drop_last();
        let c = b.last();
        lemma_split_state_concat(a, b2, sep);
        assert((a + b).drop_last() =~= a + b2);
        assert((a + b).last() == c);
        let (db2, ob2) = crate::text::split_state(b2, sep);
        let (dab2, oab2) = crate::text::split_state(a + b2, sep);
        if db2.len() == 0 {
            if c == sep {
                assert(seq![ob2].drop_first() =~= Seq::<Seq<char>>::empty());
                assert(da.push(oa + ob2) =~= da.push(oa + seq![ob2][0]) + seq![ob2].drop_first());
            } else {
                assert((oa + ob2).push(c) =~= oa + ob2.push(c));
            }
        } else {
            if c == sep {
                assert(db2.push(ob2)[0] == db2[0]);
                assert(db2.push(ob2).drop_first() =~= db2.drop_first().push(ob2));
                assert(dab2.push(oab2) =~= da.push(oa + db2[0]) + db2.drop_first().push(ob2));
            }
        }
    }
}

/// Splitting joined text: the last piece of the first part and the first
/// piece of the second run together.
proof fn lemma_split_concat(a: Seq<char>, b: Seq<char>, sep: char)
    ensures
        crate::text::split(a + b, sep) == crate::text::split(a, sep).drop_last() + seq![
            crate::text::split(a, sep).last() + crate::text::split(b, sep)[0],
        ] + crate::text::split(b, sep).drop_first(),
{
    lemma_split_state_concat(a, b, sep);
    let (da, oa) = crate::text::split_state(a, sep);
    let (db, ob) = crate::text::split_state(b, sep);
    let sa = crate::text::split(a, sep);
    let sb = crate::text::split(b, sep);
    assert(sa.drop_last() =~= da);
    assert(sa.last() == oa);
    if db.len() == 0 {
        assert(sb =~= seq![ob]);
        assert(sb.drop_first() =~= Seq::<Seq<char>>::empty());
        assert(crate::text::split(a + b, sep) =~= da + seq![oa + ob]);
    } else {
        assert(sb[0] == db[0]);
        assert(sb.drop_first() =~= db.drop_first().push(ob));
        assert(crate::text::split(a + b, sep) =~= da + seq![oa + db[0]] + db.drop_first().push(ob));
    }
}

proof fn lemma_line_texts_push(lines: Seq<Seq<(Seq<char>, JsonRole)>>, line: Seq<(Seq<char>, JsonRole)>)
    ensures
        line_texts(lines.push(line)) == line_texts(lines).push(line_text(line)),
{
    assert(line_texts(lines.push(line)) =~= line_texts(lines).push(line_text(line)));
}

proof fn lemma_append_piece_text(line: Seq<(Seq<char>, JsonRole)>, piece: Seq<char>, role: JsonRole)
    ensures
        line_text(append_piece(line, piece, role)) == line_text(line) + piece,
        pieces_nonempty(line) ==> pieces_nonempty(append_piece(line, piece, role)),
{
    if piece.len() > 0 {
        assert(line.push((piece, role)).drop_last() =~= line);
    } else {
        assert(line_text(line) + piece =~= line_text(line));
    }
}

proof fn lemma_add_pieces_text(
    lines: Seq<Seq<(Seq<char>, JsonRole)>>,
    current: Seq<(Seq<char>, JsonRole)>,
    pieces: Seq<Seq<char>>,
    role: JsonRole,
)
    requires
        pieces.len() > 0,
    ensures
        ({
            let (lines2, current2) = add_pieces(lines, current, pieces, role);
            &&& line_texts(lines2).push(line_text(current2)) == line_texts(lines) + seq![
                line_text(current) + pieces[0],
            ] + pieces.drop_first()
            &&& pieces_nonempty(current) ==> pieces_nonempty(current2)
        }),
    decreases pieces.len(),
{
    let line = append_piece(current, pieces[0], role);
    lemma_append_piece_text(current, pieces[0], role);
    if pieces.len() == 1 {
        assert(pieces.drop_first() =~= Seq::<Seq<char>>::empty());
        assert(line_texts(lines).push(line_text(line)) =~= line_texts(lines) + seq![
            line_text(current) + pieces[0],
        ] + pieces.drop_first());
    } else {
        let rest = pieces.drop_first();
        let empty = Seq::<(Seq<char>, JsonRole)>::empty();
        lemma_add_pieces_text(lines.push(line), empty, rest, role);
        lemma_line_texts_push(lines, line);
        assert(line_text(empty) + rest[0] =~= rest[0]);
        assert(rest =~= seq![rest[0]] + rest.drop_first());
        assert(line_texts(lines).push(line_text(line)) + seq![rest[0]] + rest.drop_first()
            =~= line_texts(lines) + seq![line_text(current) + pieces[0]] + rest);
    }
}

proof fn lemma_joined_last(t: Seq<char>, spans: Seq<JsonSpan>)
    requires
        spans.len() > 0,
    ensures
        joined_text(t, spans) == joined_text(t, spans.drop_last()) + span_text(t, spans.last()),
    decreases spans.len(),
{
    if spans.len() == 1 {
        assert(spans.drop_last() =~= Seq::<JsonSpan>::empty());
        assert(spans.drop_first() =~= Seq::<JsonSpan>::empty());
        assert(span_text(t, spans[0]) + Seq::<char>::empty() =~= Seq::<char>::empty() + span_text(t, spans[0]));
    } else {
        let rest = spans.drop_first();
        lemma_joined_last(t, rest);
        assert(rest.drop_last() =~= spans.drop_last().drop_first());
        assert(rest.last() == spans.last());
        assert(spans.drop_last()[0] == spans[0]);
        let a = span_text(t, spans[0]);
        let b = joined_text(t, rest.drop_last());
        let c = span_text(t, spans.last());
        assert(a + (b + c) =~= (a + b) + c);
    }
}

proof fn lemma_lines_state_text(t: Seq<char>, spans: Seq<JsonSpan>)
    ensures
        line_texts(lines_state(t, spans).0).push(line_text(lines_state(t, spans).1))
            == crate::text::split(joined_text(t, spans), '\n'),
        pieces_nonempty(lines_state(t, spans).1),
    decreases spans.len(),
{
    if spans.len() == 0 {
        let e = Seq::<Seq<(Seq<char>, JsonRole)>>::empty();
        assert(line_texts(e) =~= Seq::<Seq<char>>::empty());
        assert(line_texts(e).push(line_text(Seq::empty())) =~= seq![Seq::<char>::empty()]);
        assert(crate::text::split(Seq::<char>::empty(), '\n') =~= seq![Seq::<char>::empty()]);
    } else {
        let before = spans.drop_last();
        let s = span_text(t, spans.last());
        let (lines, current) = lines_state(t, before);
        lemma_lines_state_text(t, before);
        lemma_joined_last(t, spans);
        let pieces = crate::text::split(s, '\n');
        lemma_split_nonempty(s, '\n');
        lemma_add_pieces_text(lines, current, pieces, spans.last().role);
        let a = joined_text(t, before);
        lemma_split_concat(a, s, '\n');
        let sa = crate::text::split(a, '\n');
        assert(line_texts(lines) =~= sa.drop_last());
        assert(line_text(current) == sa.last());
    }
}

proof fn lemma_joined_tiles(t: Seq<char>, spans: Seq<JsonSpan>, from: int, to: int)
    requires
        tiles(spans, from, to),
        0 <= from,
        to <= t.len(),
    ensures
        joined_text(t, spans) == t.subrange(from, to),
    decreases spans.len(),
{
    if spans.len() == 0 {
        assert(t.subrange(from, to) =~= Seq::<char>::empty());
    } else {
        let e = spans[0].end as int;
        lemma_tiles_bounded(spans.drop_first(), e, to);
        lemma_joined_tiles(t, spans.drop_first(), e, to);
        assert(t.subrange(from, e) + t.subrange(e, to) =~= t.subrange(from, to));
    }
}

proof fn lemma_tiles_bounded(spans: Seq<JsonSpan>, from: int, to: int)
    requires
        tiles(spans, from, to),
    ensures
        from <= to,
    decreases spans.len(),
{
    if spans.len() > 0 {
        lemma_tiles_bounded(spans.drop_first(), spans[0].end as int, to);
    }
}

/// A document pane shows the lines of its text: split into lines, the runs
/// give back the text's own lines, as `str::lines` counts them (for text
/// without carriage returns), and at least one.
pub proof fn lemma_json_lines_are_text_lines(t: Seq<char>)
    requires
        t.len() <= usize::MAX,
    ensures
        line_texts(json_lines(t, json_tokens(t, 0, Seq::empty()))) == text_lines(t),
{
    let spans = json_tokens(t, 0, Seq::empty());
    lemma_json_tokens_tile(t, 0, Seq::empty());
    lemma_joined_tiles(t, spans, 0, t.len() as int);
    assert(t.subrange(0, t.len() as int) =~= t);
    lemma_lines_state_text(t, spans);
    let (lines, current) = lines_state(t, spans);
    let parts = crate::text::split(t, '\n');
    if current.len() > 0 {
        assert(current[current.len() - 1].0.len() > 0);
        assert(current.drop_last() + seq![current.last()] =~= current);
        assert(line_text(current).len() > 0);
        lemma_line_texts_push(lines, current);
    } else if lines.len() == 0 {
        lemma_line_texts_push(lines, current);
    } else {
        assert(line_texts(lines) =~= parts.drop_last());
    }
}


// ---------------------------------------------------------------------------
// Every piece keeps its role
// ---------------------------------------------------------------------------

pub open spec fn single_piece(piece: Seq<char>, role: JsonRole) -> Seq<(Seq<char>, JsonRole)> {
    if piece.len() > 0 {
        seq![(piece, role)]
    } else {
        Seq::empty()
    }
}

/// The non-empty `pieces`, each with `role`.
pub open spec fn role_pieces(pieces: Seq<Seq<char>>, role: JsonRole) -> Seq<(Seq<char>, JsonRole)>
    decreases pieces.len(),
{
    if pieces.len() == 0 {
        Seq::empty()
    } else {
        single_piece(pieces[0], role) + role_pieces(pieces.drop_first(), role)
    }
}

/// Each run's text split at its newlines, the non-empty pieces in order,
/// each with its run's role.
pub open spec fn run_pieces(t: Seq<char>, spans: Seq<JsonSpan>) -> Seq<(Seq<char>, JsonRole)>
    decreases spans.len(),
{
    if spans.len() == 0 {
        Seq::empty()
    } else {
        run_pieces(t, spans.drop_last()) + role_pieces(
            crate::text::split(span_text(t, spans.last()), '\n'),
            spans.last().role,
        )
    }
}

proof fn lemma_add_pieces_flat(
    lines: Seq<Seq<(Seq<char>, JsonRole)>>,
    current: Seq<(Seq<char>, JsonRole)>,
    pieces: Seq<Seq<char>>,
    role: JsonRole,
)
    ensures
        add_pieces(lines, current, pieces, role).0.flatten() + add_pieces(lines, current, pieces, role).1
            == lines.flatten() + current + role_pieces(pieces, role),
    decreases pieces.len(),
{
    if pieces.len() == 0 {
        assert(current + Seq::<(Seq<char>, JsonRole)>::empty() =~= current);
        assert(lines.flatten() + current + Seq::<(Seq<char>, JsonRole)>::empty() =~= lines.flatten() + current);
    } else {
        let line = append_piece(current, pieces[0], role);
        let rest = pieces.drop_first();
        assert(line =~= current + single_piece(pieces[0], role));
        if pieces.len() == 1 {
            assert(rest =~= Seq::<Seq<char>>::empty());
            assert(role_pieces(rest, role) =~= Seq::<(Seq<char>, JsonRole)>::empty());
            assert(lines.flatten() + line =~= lines.flatten() + current + role_pieces(pieces, role));
        } else {
            let empty = Seq::<(Seq<char>, JsonRole)>::empty();
            lemma_add_pieces_flat(lines.push(line), empty, rest, role);
            lines.lemma_flatten_push(line);
            assert(lines.flatten() + line + empty + role_pieces(rest, role)
                =~= lines.flatten() + current + role_pieces(pieces, role));
        }
    }
}

proof fn lemma_lines_state_flat(t: Seq<char>, spans: Seq<JsonSpan>)
    ensures
        lines_state(t, spans).0.flatten() + lines_state(t, spans).1 == run_pieces(t, spans),
    decreases spans.len(),
{
    if spans.len() == 0 {
        let e = Seq::<Seq<(Seq<char>, JsonRole)>>::empty();
        assert(e.flatten() + Seq::<(Seq<char>, JsonRole)>::empty() =~= Seq::<(Seq<char>, JsonRole)>::empty());
    } else {
        let (lines, current) = lines_state(t, spans.drop_last());
        lemma_lines_state_flat(t, spans.drop_last());
        lemma_add_pieces_flat(
            lines,
            current,
            crate::text::split(span_text(t, spans.last()), '\n'),
            spans.last().role,
        );
    }
}

/// Split into lines, every piece keeps the role its run had in the whole
/// text: the lines' pieces, read in order, are the runs' texts cut at their
/// newlines, empty pieces left out, each with its run's role.
pub proof fn lemma_json_lines_keep_roles(t: Seq<char>, spans: Seq<JsonSpan>)
    ensures
        json_lines(t, spans).flatten() == run_pieces(t, spans),
{
    lemma_lines_state_flat(t, spans);
    let (lines, current) = lines_state(t, spans);
    if current.len() > 0 || lines.len() == 0 {
        lines.lemma_flatten_push(current);
    } else {
        assert(current =~= Seq::<(Seq<char>, JsonRole)>::empty());
        assert(lines.flatten() + current =~= lines.flatten());
    }
}

} // verus!
