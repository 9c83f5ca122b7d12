//! The three encodings of a result set: compact JSON lines, an indented JSON
//! document, and plain text.

use vstd::prelude::*;
use crate::results::{SearchError, SearchResult};
use crate::text::{no_newline, string_of};

verus! {

/// The error of serde_json's encoder, carried without looking inside.
#[verifier::external_type_specification]
#[verifier::external_body]
pub struct ExJsonError(serde_json::Error);

/// Hexadecimal digit `d`, in lower case.
pub open spec fn hex_digit(d: int) -> char {
    seq!['0', '1', '2', '3', '4', '5', '6', '7', '8', '9', 'a', 'b', 'c', 'd', 'e', 'f'][d]
}

/// How `c` is written inside a JSON string literal: the quote, the
/// backslash and five control characters by a short escape, the other
/// control characters by `\u00` and two hex digits, the rest as they are.
pub open spec fn json_escape_char(c: char) -> Seq<char> {
    if c == '"' {
        seq!['\\', '"']
    } else if c == '\\' {
        seq!['\\', '\\']
    } else if c == '\x08' {
        seq!['\\', 'b']
    } else if c == '\t' {
        seq!['\\', 't']
    } else if c == '\n' {
        seq!['\\', 'n']
    } else if c == '\x0c' {
        seq!['\\', 'f']
    } else if c == '\r' {
        seq!['\\', 'r']
    } else if (c as u32) < 0x20 {
        seq!['\\', 'u', '0', '0', hex_digit(((c as u32) / 16) as int), hex_digit(((c as u32) % 16) as int)]
    } else {
        seq![c]
    }
}

/// The characters of `s`, each written as inside a JSON string literal.
pub open spec fn json_escaped(s: Seq<char>) -> Seq<char>
    decreases s.len(),
{
    if s.len() == 0 {
        Seq::empty()
    } else {
        json_escaped(s.drop_last()) + json_escape_char(s.last())
    }
}

/// The JSON string literal that encodes `s`.
pub open spec fn json_text(s: Seq<char>) -> Seq<char> {
    seq!['"'] + json_escaped(s) + seq!['"']
}

/// Relies on `serde_json::to_string` on a `str`: the quoted JSON string
/// literal, escaped by the encoder's table (`format_escaped_str`). It writes
/// into a `Vec`, which cannot fail, and a `str` serializes without an error
/// of its own.
#[verifier::external_body]
fn json_quote(s: &str) -> (r: Result<String, serde_json::Error>)
    ensures
        r is Ok,
        r->Ok_0@ == json_text(s@),
{
    serde_json::to_string(s)
}

/// How a result set is printed.
#[derive(Clone, Copy, Debug)]
pub enum OutputFormat {
    /// One indented JSON document with the query, the count and the results.
    Json,
    /// One compact JSON object per line.
    Jsonl,
    /// Numbered plain text.
    Text,
}

/// The encoded fields of one result: JSON texts, and the rank where known.
pub struct RecordText {
    pub path: Seq<char>,
    pub category: Seq<char>,
    pub title: Seq<char>,
    pub snippet: Seq<char>,
    pub rank: Option<Seq<char>>,
}

/// One result with its text fields encoded as JSON string literals.
pub struct EncodedResult {
    pub path: String,
    pub category: String,
    pub title: String,
    pub snippet: String,
    pub rank: Option<String>,
}

impl EncodedResult {
    /// The fields as characters.
    pub open spec fn fields(self) -> RecordText {
        RecordText {
            path: self.path@,
            category: self.category@,
            title: self.title@,
            snippet: self.snippet@,
            rank: rank_view(self.rank),
        }
    }
}

/// A rank as characters, where there is one.
pub open spec fn rank_view(rank: Option<String>) -> Option<Seq<char>> {
    match rank {
        Some(r) => Some(r@),
        None => None,
    }
}

/// The encoded fields of a result.
pub open spec fn encoded_fields(r: SearchResult) -> RecordText {
    RecordText {
        path: json_text(r.path@),
        category: json_text(r.category@),
        title: json_text(r.title@),
        snippet: json_text(r.snippet@),
        rank: rank_view(r.rank),
    }
}

/// No field of `f` holds a line feed.
pub open spec fn fields_on_one_line(f: RecordText) -> bool {
    &&& no_newline(f.path)
    &&& no_newline(f.category)
    &&& no_newline(f.title)
    &&& no_newline(f.snippet)
    &&& f.rank is Some ==> no_newline(f.rank->0)
}

/// The parts joined, with `sep` between each two.
pub open spec fn join(parts: Seq<Seq<char>>, sep: Seq<char>) -> Seq<char>
    decreases parts.len(),
{
    if parts.len() == 0 {
        Seq::empty()
    } else if parts.len() == 1 {
        parts[0]
    } else {
        join(parts.drop_last(), sep) + sep + parts.last()
    }
}

/// Decimal digit `d`.
pub open spec fn digit(d: int) -> char {
    seq!['0', '1', '2', '3', '4', '5', '6', '7', '8', '9'][d]
}

/// `n` in decimal, without leading zeros.
pub open spec fn decimal(n: nat) -> Seq<char>
    decreases n,
{
    if n < 10 {
        seq![digit(n as int)]
    } else {
        decimal(n / 10) + seq![digit((n % 10) as int)]
    }
}

/// One compact JSON object with short keys, in key order.
pub open spec fn compact_line(f: RecordText) -> Seq<char> {
    "{\"c\":"@ + f.category + ",\"p\":"@ + f.path + ",\"r\":"@
        + (match f.rank {
        Some(r) => r,
        None => "null"@,
    }) + ",\"s\":"@ + f.snippet + ",\"t\":"@ + f.title + "}"@
}

/// The compact lines of the records, one per line.
pub open spec fn compact_text(fs: Seq<RecordText>) -> Seq<char> {
    join(fs.map_values(|f: RecordText| compact_line(f)), seq!['\n'])
}

/// One record as an indented JSON object inside the result list; a record
/// without a rank has no rank key.
pub open spec fn pretty_object(f: RecordText) -> Seq<char> {
    "    {\n      \"category\": "@ + f.category + ",\n      \"path\": "@ + f.path + ",\n"@
        + (match f.rank {
        Some(r) => "      \"rank\": "@ + r + ",\n"@,
        None => Seq::empty(),
    }) + "      \"snippet\": "@ + f.snippet + ",\n      \"title\": "@ + f.title + "\n    }"@
}

/// The indented JSON document: the count, the encoded query and the records.
pub open spec fn pretty_text(query_json: Seq<char>, fs: Seq<RecordText>) -> Seq<char> {
    "{\n  \"count\": "@ + decimal(fs.len()) + ",\n  \"query\": "@ + query_json
        + ",\n  \"results\": [\n"@ + join(fs.map_values(|f: RecordText| pretty_object(f)), ",\n"@)
        + "\n  ]\n}"@
}

/// The text entry of the result at 0-based position `i`.
pub open spec fn text_entry(r: SearchResult, i: nat) -> Seq<char> {
    "\n"@ + decimal(i + 1) + ". ["@ + r.category@ + "] "@ + r.title@ + "\n   Path: "@ + r.path@
        + "\n   "@ + r.snippet@ + "\n"@
}

/// The text entries of the results, numbered from one.
pub open spec fn text_entries(rs: Seq<SearchResult>) -> Seq<char>
    decreases rs.len(),
{
    if rs.len() == 0 {
        Seq::empty()
    } else {
        text_entries(rs.drop_last()) + text_entry(rs.last(), (rs.len() - 1) as nat)
    }
}

/// The plain-text listing: a header with the count and the query, then the
/// entries.
pub open spec fn plain_text(rs: Seq<SearchResult>, query: Seq<char>) -> Seq<char> {
    "Found "@ + decimal(rs.len()) + " results for '"@ + query + "':\n"@ + text_entries(rs)
}

/// What an empty result set prints as in the two JSON formats.
pub open spec fn empty_json() -> Seq<char> {
    "{\"results\":[],\"count\":0}"@
}

/// What an empty result set prints as in plain text.
pub open spec fn empty_text() -> Seq<char> {
    "No results found."@
}

/// The output for `rs` and `query` in `format`.
pub open spec fn formatted(rs: Seq<SearchResult>, query: Seq<char>, format: OutputFormat) -> Seq<char> {
    if rs.len() == 0 {
        match format {
            OutputFormat::Text => empty_text(),
            _ => empty_json(),
        }
    } else {
        match format {
            OutputFormat::Jsonl => compact_text(rs.map_values(|r: SearchResult| encoded_fields(r))),
            OutputFormat::Json => pretty_text(
                json_text(query),
                rs.map_values(|r: SearchResult| encoded_fields(r)),
            ),
            OutputFormat::Text => plain_text(rs, query),
        }
    }
}

/// Two texts without a line feed make one without.
pub proof fn lemma_no_newline_add(a: Seq<char>, b: Seq<char>)
    requires
        no_newline(a),
        no_newline(b),
    ensures
        no_newline(a + b),
{
    assert forall|k: int| 0 <= k < (a + b).len() implies (a + b)[k] != '\n' by {
        if k >= a.len() {
            assert((a + b)[k] == b[k - a.len()]);
        }
    }
}

/// An escaped character is never a line feed.
pub proof fn lemma_escape_char_one_line(c: char)
    ensures
        no_newline(json_escape_char(c)),
{
    let e = json_escape_char(c);
    assert forall|k: int| 0 <= k < e.len() implies e[k] != '\n' by {
        if c != '"' && c != '\\' && c != '\x08' && c != '\t' && c != '\n' && c != '\x0c'
            && c != '\r' && (c as u32) < 0x20 {
            assert(0 <= (c as u32) / 16 < 16);
            assert(0 <= (c as u32) % 16 < 16);
        }
    }
}

/// A JSON string literal holds no line feed: the line feed is escaped.
pub proof fn lemma_json_text_one_line(s: Seq<char>)
    ensures
        no_newline(json_text(s)),
{
    lemma_json_escaped_one_line(s);
    lemma_no_newline_add(seq!['"'], json_escaped(s));
    lemma_no_newline_add(seq!['"'] + json_escaped(s), seq!['"']);
}

/// Escaped characters hold no line feed.
pub proof fn lemma_json_escaped_one_line(s: Seq<char>)
    ensures
        no_newline(json_escaped(s)),
    decreases s.len(),
{
    if s.len() > 0 {
        lemma_json_escaped_one_line(s.drop_last());
        lemma_escape_char_one_line(s.last());
        lemma_no_newline_add(json_escaped(s.drop_last()), json_escape_char(s.last()));
    }
}

/// Joining one part more appends the separator and that part.
pub proof fn lemma_join_step(parts: Seq<Seq<char>>, sep: Seq<char>, i: int)
    requires
        0 <= i < parts.len(),
    ensures
        join(parts.subrange(0, i + 1), sep) == if i == 0 {
            parts[0]
        } else {
            join(parts.subrange(0, i), sep) + sep + parts[i]
        },
{
    assert(parts.subrange(0, i + 1).drop_last() =~= parts.subrange(0, i));
}

/// The character of digit `d`.
fn digit_char(d: usize) -> (c: char)
    requires
        d < 10,
    ensures
        c == digit(d as int),
{
    if d == 0 {
        '0'
    } else if d == 1 {
        '1'
    } else if d == 2 {
        '2'
    } else if d == 3 {
        '3'
    } else if d == 4 {
        '4'
    } else if d == 5 {
        '5'
    } else if d == 6 {
        '6'
    } else if d == 7 {
        '7'
    } else if d == 8 {
        '8'
    } else {
        '9'
    }
}

/// Appends `n` in decimal to `out`.
fn push_decimal(out: &mut Vec<char>, n: usize)
    ensures
        final(out)@ == old(out)@ + decimal(n as nat),
    decreases n,
{
    if n >= 10 {
        push_decimal(out, n / 10);
    }
    out.push(digit_char(n % 10));
    assert(final(out)@ =~= old(out)@ + decimal(n as nat));
}

/// `n` in decimal.
pub fn decimal_string(n: usize) -> (r: String)
    ensures
        r@ == decimal(n as nat),
{
    let mut digits: Vec<char> = Vec::new();
    push_decimal(&mut digits, n);
    assert(digits@ =~= decimal(n as nat));
    string_of(&digits)
}

/// Maps a failure of the JSON encoder to the library's error.
fn encoding_failed(_e: serde_json::Error) -> (r: SearchError)
    ensures
        r is SerializationError,
{
    SearchError::SerializationError
}

/// `r` with its text fields encoded as JSON string literals.
pub fn encode_result(r: &SearchResult) -> (e: Result<EncodedResult, SearchError>)
    ensures
        e is Ok,
        e->Ok_0.fields() == encoded_fields(*r),
        r.wf() ==> fields_on_one_line(e->Ok_0.fields()),
{
    let path = match json_quote(r.path.as_str()) {
        Ok(t) => t,
        Err(err) => return Err(encoding_failed(err)),
    };
    let category = match json_quote(r.category.as_str()) {
        Ok(t) => t,
        Err(err) => return Err(encoding_failed(err)),
    };
    let title = match json_quote(r.title.as_str()) {
        Ok(t) => t,
        Err(err) => return Err(encoding_failed(err)),
    };
    let snippet = match json_quote(r.snippet.as_str()) {
        Ok(t) => t,
        Err(err) => return Err(encoding_failed(err)),
    };
    let rank = match &r.rank {
        Some(x) => Some(x.clone()),
        None => None,
    };
    proof {
        lemma_json_text_one_line(r.path@);
        lemma_json_text_one_line(r.category@);
        lemma_json_text_one_line(r.title@);
        lemma_json_text_one_line(r.snippet@);
    }
    Ok(EncodedResult { path, category, title, snippet, rank })
}

/// Appends `x` to `out`, keeping track of line feeds.
fn append_part(out: &mut String, x: &str)
    ensures
        final(out)@ == old(out)@ + x@,
        no_newline(old(out)@) && no_newline(x@) ==> no_newline(final(out)@),
{
    out.append(x);
    proof {
        if no_newline(old(out)@) && no_newline(x@) {
            lemma_no_newline_add(old(out)@, x@);
        }
    }
}

/// One record as a compact JSON object with short keys.
pub fn compact_record(e: &EncodedResult) -> (r: String)
    ensures
        r@ == compact_line(e.fields()),
        fields_on_one_line(e.fields()) ==> no_newline(r@),
{
    proof {
        reveal_strlit("{\"c\":");
        reveal_strlit(",\"p\":");
        reveal_strlit(",\"r\":");
        reveal_strlit("null");
        reveal_strlit(",\"s\":");
        reveal_strlit(",\"t\":");
        reveal_strlit("}");
    }
    let mut out = String::from_str("{\"c\":");
    append_part(&mut out, e.category.as_str());
    append_part(&mut out, ",\"p\":");
    append_part(&mut out, e.path.as_str());
    append_part(&mut out, ",\"r\":");
    match &e.rank {
        Some(x) => append_part(&mut out, x.as_str()),
        None => append_part(&mut out, "null"),
    }
    append_part(&mut out, ",\"s\":");
    append_part(&mut out, e.snippet.as_str());
    append_part(&mut out, ",\"t\":");
    append_part(&mut out, e.title.as_str());
    append_part(&mut out, "}");
    out
}

/// The compact records, one per line, in order.
pub fn compact_lines(es: &Vec<EncodedResult>) -> (r: String)
    ensures
        r@ == join(es@.map_values(|e: EncodedResult| compact_line(e.fields())), seq!['\n']),
{
    let ghost lines = es@.map_values(|e: EncodedResult| compact_line(e.fields()));
    let mut out = String::new();
    let mut i: usize = 0;
    while i < es.len()
        invariant
            i <= es@.len(),
            lines == es@.map_values(|e: EncodedResult| compact_line(e.fields())),
            out@ == join(lines.subrange(0, i as int), seq!['\n']),
        decreases es@.len() - i,
    {
        proof {
            reveal_strlit("\n");
            lemma_join_step(lines, seq!['\n'], i as int);
        }
        if i > 0 {
            out.append("\n");
        } else {
            assert(out@ =~= Seq::<char>::empty());
        }
        let line = compact_record(&es[i]);
        out.append(line.as_str());
        i = i + 1;
    }
    assert(lines.subrange(0, es@.len() as int) =~= lines);
    out
}

/// One record as an indented JSON object inside the result list.
pub fn pretty_record(e: &EncodedResult) -> (r: String)
    ensures
        r@ == pretty_object(e.fields()),
{
    let mut out = String::from_str("    {\n      \"category\": ");
    out.append(e.category.as_str());
    out.append(",\n      \"path\": ");
    out.append(e.path.as_str());
    out.append(",\n");
    match &e.rank {
        Some(x) => {
            out.append("      \"rank\": ");
            out.append(x.as_str());
            out.append(",\n");
        },
        None => {},
    }
    out.append("      \"snippet\": ");
    out.append(e.snippet.as_str());
    out.append(",\n      \"title\": ");
    out.append(e.title.as_str());
    out.append("\n    }");
    assert(out@ =~= pretty_object(e.fields()));
    out
}

/// The indented JSON document of a query, given as a JSON string literal,
/// and its encoded records.
pub fn pretty_document(query_json: &str, es: &Vec<EncodedResult>) -> (r: String)
    ensures
        r@ == pretty_text(query_json@, es@.map_values(|e: EncodedResult| e.fields())),
{
    let ghost fs = es@.map_values(|e: EncodedResult| e.fields());
    let ghost objects = fs.map_values(|f: RecordText| pretty_object(f));
    let mut body = String::new();
    let mut i: usize = 0;
    while i < es.len()
        invariant
            i <= es@.len(),
            fs == es@.map_values(|e: EncodedResult| e.fields()),
            objects == fs.map_values(|f: RecordText| pretty_object(f)),
            body@ == join(objects.subrange(0, i as int), ",\n"@),
        decreases es@.len() - i,
    {
        proof {
            lemma_join_step(objects, ",\n"@, i as int);
        }
        if i > 0 {
            body.append(",\n");
        } else {
            assert(body@ =~= Seq::<char>::empty());
        }
        let object = pretty_record(&es[i]);
        body.append(object.as_str());
        i = i + 1;
    }
    assert(objects.subrange(0, es@.len() as int) =~= objects);
    let count = decimal_string(es.len());
    let mut out = String::from_str("{\n  \"count\": ");
    out.append(count.as_str());
    out.append(",\n  \"query\": ");
    out.append(query_json);
    out.append(",\n  \"results\": [\n");
    out.append(body.as_str());
    out.append("\n  ]\n}");
    assert(out@ =~= pretty_text(query_json@, fs));
    out
}

/// The plain-text listing of `rs` for `query`.
pub fn plain_listing(rs: &Vec<SearchResult>, query: &str) -> (r: String)
    ensures
        r@ == plain_text(rs@, query@),
{
    let count = decimal_string(rs.len());
    let mut out = String::from_str("Found ");
    out.append(count.as_str());
    out.append(" results for '");
    out.append(query);
    out.append("':\n");
    let ghost header = out@;
    let mut i: usize = 0;
    while i < rs.len()
        invariant
            i <= rs@.len(),
            out@ == header + text_entries(rs@.subrange(0, i as int)),
        decreases rs@.len() - i,
    {
        let r = &rs[i];
        let number = decimal_string(i + 1);
        let ghost before = out@;
        out.append("\n");
        out.append(number.as_str());
        out.append(". [");
        out.append(r.category.as_str());
        out.append("] ");
        out.append(r.title.as_str());
        out.append("\n   Path: ");
        out.append(r.path.as_str());
        out.append("\n   ");
        out.append(r.snippet.as_str());
        out.append("\n");
        assert(rs@.subrange(0, i + 1).drop_last() =~= rs@.subrange(0, i as int));
        assert(out@ =~= before + text_entry(rs@[i as int], i as nat));
        i = i + 1;
    }
    assert(rs@.subrange(0, rs@.len() as int) =~= rs@);
    out
}

/// `results` for `query` in `format`. The error is there for the encoder's
/// sake: every string encodes, so formatting succeeds.
pub fn format_results(results: &Vec<SearchResult>, query: &str, format: OutputFormat) -> (r: Result<String, SearchError>)
    ensures
        r is Ok,
        r->Ok_0@ == formatted(results@, query@, format),
        format is Jsonl && (forall|i: int| 0 <= i < results@.len() ==> (#[trigger] results@[i]).wf())
            ==> forall|i: int| 0 <= i < results@.len()
                ==> no_newline(compact_line(#[trigger] encoded_fields(results@[i]))),
{
    if results.len() == 0 {
        return match format {
            OutputFormat::Text => Ok(String::from_str("No results found.")),
            _ => Ok(String::from_str("{\"results\":[],\"count\":0}")),
        };
    }
    match format {
        OutputFormat::Text => Ok(plain_listing(results, query)),
        _ => {
            let mut encoded: Vec<EncodedResult> = Vec::new();
            let mut i: usize = 0;
            while i < results.len()
                invariant
                    i <= results@.len(),
                    results@.len() > 0,
                    !(format is Text),
                    encoded@.len() == i,
                    forall|j: int| 0 <= j < i ==> (#[trigger] encoded@[j]).fields() == encoded_fields(results@[j]),
                    forall|j: int| 0 <= j < i && results@[j].wf()
                        ==> fields_on_one_line(#[trigger] encoded@[j].fields()),
                decreases results@.len() - i,
            {
                let e = match encode_result(&results[i]) {
                    Ok(e) => e,
                    Err(err) => return Err(err),
                };
                encoded.push(e);
                i = i + 1;
            }
            let ghost fs = results@.map_values(|r: SearchResult| encoded_fields(r));
            assert(encoded@.map_values(|e: EncodedResult| e.fields()) =~= fs);
            match format {
                OutputFormat::Jsonl => {
                    let out = compact_lines(&encoded);
                    assert(encoded@.map_values(|e: EncodedResult| compact_line(e.fields()))
                        =~= fs.map_values(|f: RecordText| compact_line(f)));
                    proof {
                        assert forall|i: int| 0 <= i < results@.len() && (forall|j: int| 0 <= j < results@.len() ==> (#[trigger] results@[j]).wf())
                            implies no_newline(compact_line(#[trigger] encoded_fields(results@[i]))) by {
                            assert(results@[i].wf());
                            assert(fields_on_one_line(encoded@[i].fields()));
                            compact_line_one_line(encoded@[i].fields());
                        }
                    }
                    Ok(out)
                },
                _ => {
                    let query_json = match json_quote(query) {
                        Ok(t) => t,
                        Err(err) => return Err(encoding_failed(err)),
                    };
                    Ok(pretty_document(query_json.as_str(), &encoded))
                },
            }
        },
    }
}

/// A compact record of fields without line feeds is one line.
pub proof fn compact_line_one_line(f: RecordText)
    requires
        fields_on_one_line(f),
    ensures
        no_newline(compact_line(f)),
{
    reveal_strlit("{\"c\":");
    reveal_strlit(",\"p\":");
    reveal_strlit(",\"r\":");
    reveal_strlit("null");
    reveal_strlit(",\"s\":");
    reveal_strlit(",\"t\":");
    reveal_strlit("}");
    let rank = match f.rank {
        Some(r) => r,
        None => "null"@,
    };
    let a = "{\"c\":"@ + f.category;
    lemma_no_newline_add("{\"c\":"@, f.category);
    lemma_no_newline_add(a, ",\"p\":"@);
    let a = a + ",\"p\":"@;
    lemma_no_newline_add(a, f.path);
    let a = a + f.path;
    lemma_no_newline_add(a, ",\"r\":"@);
    let a = a + ",\"r\":"@;
    lemma_no_newline_add(a, rank);
    let a = a + rank;
    lemma_no_newline_add(a, ",\"s\":"@);
    let a = a + ",\"s\":"@;
    lemma_no_newline_add(a, f.snippet);
    let a = a + f.snippet;
    lemma_no_newline_add(a, ",\"t\":"@);
    let a = a + ",\"t\":"@;
    lemma_no_newline_add(a, f.title);
    let a = a + f.title;
    lemma_no_newline_add(a, "}"@);
}

/// The number of line feeds in `s`.
pub open spec fn newlines(s: Seq<char>) -> nat
    decreases s.len(),
{
    if s.len() == 0 {
        0
    } else {
        newlines(s.drop_last()) + if s.last() == '\n' { 1nat } else { 0nat }
    }
}

/// Line feeds add up over a concatenation.
pub proof fn lemma_newlines_add(a: Seq<char>, b: Seq<char>)
    ensures
        newlines(a + b) == newlines(a) + newlines(b),
    decreases b.len(),
{
    if b.len() == 0 {
        assert(a + b =~= a);
    } else {
        assert((a + b).drop_last() =~= a + b.drop_last());
        lemma_newlines_add(a, b.drop_last());
    }
}

/// A text without a line feed counts none.
pub proof fn lemma_newlines_none(s: Seq<char>)
    requires
        no_newline(s),
    ensures
        newlines(s) == 0,
    decreases s.len(),
{
    if s.len() > 0 {
        lemma_newlines_none(s.drop_last());
    }
}

/// Lines without line feeds, joined by line feeds, make a text of exactly
/// as many lines: one line feed fewer than there are lines.
pub proof fn lemma_joined_lines(lines: Seq<Seq<char>>)
    requires
        lines.len() > 0,
        forall|i: int| 0 <= i < lines.len() ==> no_newline(#[trigger] lines[i]),
    ensures
        newlines(join(lines, seq!['\n'])) + 1 == lines.len(),
    decreases lines.len(),
{
    lemma_newlines_none(lines.last());
    if lines.len() > 1 {
        let prev = lines.drop_last();
        assert forall|i: int| 0 <= i < prev.len() implies no_newline(#[trigger] prev[i]) by {
            assert(prev[i] == lines[i]);
        }
        lemma_joined_lines(prev);
        lemma_newlines_add(join(prev, seq!['\n']), seq!['\n']);
        lemma_newlines_add(join(prev, seq!['\n']) + seq!['\n'], lines.last());
        assert(seq!['\n'].drop_last() =~= Seq::<char>::empty());
        assert(newlines(Seq::<char>::empty()) == 0);
        assert(newlines(seq!['\n']) == 1);
    }
}

/// In the compact format, `k > 0` valid results print as exactly `k`
/// lines, one per result, in order.
pub proof fn lemma_compact_line_count(results: Seq<SearchResult>, query: Seq<char>)
    requires
        results.len() > 0,
        forall|i: int| 0 <= i < results.len() ==> (#[trigger] results[i]).wf(),
    ensures
        newlines(formatted(results, query, OutputFormat::Jsonl)) + 1 == results.len(),
{
    let lines = results.map_values(|r: SearchResult| encoded_fields(r)).map_values(|f: RecordText| compact_line(f));
    assert forall|i: int| 0 <= i < lines.len() implies no_newline(#[trigger] lines[i]) by {
        let r = results[i];
        assert(r.wf());
        lemma_json_text_one_line(r.path@);
        lemma_json_text_one_line(r.category@);
        lemma_json_text_one_line(r.title@);
        lemma_json_text_one_line(r.snippet@);
        compact_line_one_line(encoded_fields(r));
        assert(lines[i] == compact_line(encoded_fields(results[i])));
    }
    lemma_joined_lines(lines);
}

/// The compact lines and the indented document are rendered from one
/// sequence of records, one per result and in the results' order; record
/// `i` holds the JSON encodings of result `i`'s path, category, title and
/// snippet, and its rank.
pub proof fn lemma_formats_share_records(results: Seq<SearchResult>, query: Seq<char>)
    requires
        results.len() > 0,
    ensures
        ({
            let fs = results.map_values(|r: SearchResult| encoded_fields(r));
            &&& fs.len() == results.len()
            &&& formatted(results, query, OutputFormat::Jsonl)
                == join(fs.map_values(|f: RecordText| compact_line(f)), seq!['\n'])
            &&& formatted(results, query, OutputFormat::Json)
                == pretty_text(json_text(query), fs)
            &&& pretty_text(json_text(query), fs) == "{\n  \"count\": "@ + decimal(results.len())
                + ",\n  \"query\": "@ + json_text(query) + ",\n  \"results\": [\n"@
                + join(fs.map_values(|f: RecordText| pretty_object(f)), ",\n"@) + "\n  ]\n}"@
            &&& forall|i: int| 0 <= i < fs.len() ==> {
                &&& (#[trigger] fs[i]).path == json_text(results[i].path@)
                &&& fs[i].category == json_text(results[i].category@)
                &&& fs[i].title == json_text(results[i].title@)
                &&& fs[i].snippet == json_text(results[i].snippet@)
                &&& fs[i].rank == rank_view(results[i].rank)
            }
        }),
{
}

} // verus!
