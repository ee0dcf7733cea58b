//! Parsing of an HTTP request as the server reads it: the head and the body
//! separated by the first blank line, the request line, and the headers.
use vstd::prelude::*;
use vstd::utf8::{decode_utf8, valid_utf8};
use crate::conv::{chars_of, decode_lossy, lossy_utf8, string_of};
use crate::headers::{
    insert_header, insert_pair, lemma_insert_pair, lemma_key_index, lookup, pairs_view, unique_keys,
    Pairs,
};
use crate::text::{
    copy_range, find, find_from, lemma_find_from, lemma_find_from_skip, lemma_first_occurrence, occurs_at,
    split_from, line_ranges, lines, piece, ranges_within, split_all,
    split_once, split_ranges, texts_of,
};

verus! {

/// The blank line that ends the head of a request.
pub open spec fn blank_line() -> Seq<char> {
    seq!['\r', '\n', '\r', '\n']
}

/// The separator between a header's name and its value.
pub open spec fn header_separator() -> Seq<char> {
    seq![':', ' ']
}

/// The head of a request: the text before the first blank line (all of it if
/// there is none).
pub open spec fn head_of(text: Seq<char>) -> Seq<char> {
    piece(split_all(text, blank_line()), 0)
}

/// The body of a request: the text between the first blank line and the next
/// one (or the end), or nothing if there is no blank line.
pub open spec fn body_of(text: Seq<char>) -> Seq<char> {
    piece(split_all(text, blank_line()), 1)
}

/// The request line: the first line of the head, or nothing.
pub open spec fn request_line_of(text: Seq<char>) -> Seq<char> {
    piece(lines(head_of(text)), 0)
}

/// The lines of the head after the request line.
pub open spec fn header_lines_of(text: Seq<char>) -> Seq<Seq<char>> {
    let ls = lines(head_of(text));
    if ls.len() == 0 {
        Seq::empty()
    } else {
        ls.drop_first()
    }
}

/// The header list that a sequence of header lines builds: each line that
/// holds `": "` sets the text before it to the text after it; other lines
/// are ignored.
pub open spec fn headers_from(ls: Seq<Seq<char>>) -> Pairs
    decreases ls.len(),
{
    if ls.len() == 0 {
        Seq::empty()
    } else {
        let h = headers_from(ls.drop_last());
        match split_once(ls.last(), header_separator()) {
            Some((k, v)) => insert_pair(h, k, v),
            None => h,
        }
    }
}

/// The `i`-th space-separated word of the request line, or nothing.
pub open spec fn word_of(line: Seq<char>, i: int) -> Seq<char> {
    piece(split_all(line, seq![' ']), i)
}

/// A parsed request.
pub struct Request {
    pub request_line: String,
    pub headers: Vec<(String, String)>,
    pub body: String,
    pub method: String,
    pub path: String,
    pub version: String,
}

/// A parsed request, by its texts.
pub struct RequestView {
    pub request_line: Seq<char>,
    pub headers: Pairs,
    pub body: Seq<char>,
    pub method: Seq<char>,
    pub path: Seq<char>,
    pub version: Seq<char>,
}

impl View for Request {
    type V = RequestView;

    open spec fn view(&self) -> RequestView {
        RequestView {
            request_line: self.request_line@,
            headers: pairs_view(self.headers@),
            body: self.body@,
            method: self.method@,
            path: self.path@,
            version: self.version@,
        }
    }
}

/// What the server reads from the text of a request.
pub open spec fn parse_text(text: Seq<char>) -> RequestView {
    let line = request_line_of(text);
    RequestView {
        request_line: line,
        headers: headers_from(header_lines_of(text)),
        body: body_of(text),
        method: word_of(line, 0),
        path: word_of(line, 1),
        version: word_of(line, 2),
    }
}

/// The `i`-th piece of `s` split at `pat`, or nothing.
fn nth_piece(s: &[char], pat: &[char], i: usize) -> (r: Vec<char>)
    requires
        pat@.len() > 0,
    ensures
        r@ == piece(split_all(s@, pat@), i as int),
{
    let ranges = split_ranges(s, pat, 0);
    assert(texts_of(s@, ranges@).len() == ranges@.len());
    if i < ranges.len() {
        let (a, b) = ranges[i];
        assert(ranges_within(s@, ranges@) ==> ranges@[i as int].0 <= ranges@[i as int].1 <= s@.len());
        assert(texts_of(s@, ranges@)[i as int] == s@.subrange(a as int, b as int));
        copy_range(s, a, b)
    } else {
        Vec::new()
    }
}

/// The header list that the header lines of `head` build.
fn parse_headers(head: &[char]) -> (h: Vec<(String, String)>)
    ensures
        pairs_view(h@) == headers_from(if lines(head@).len() == 0 {
            Seq::<Seq<char>>::empty()
        } else {
            lines(head@).drop_first()
        }),
{
    let ls = line_ranges(head);
    let ghost all = lines(head@);
    assert(texts_of(head@, ls@).len() == ls@.len());
    let mut h: Vec<(String, String)> = Vec::new();
    if ls.len() == 0 {
        return h;
    }
    let ghost hl = all.drop_first();
    let sep: Vec<char> = vec![':', ' '];
    assert(sep@ =~= header_separator());
    let mut i: usize = 1;
    while i < ls.len()
        invariant
            1 <= i <= ls@.len(),
            all == texts_of(head@, ls@),
            ranges_within(head@, ls@),
            hl == all.drop_first(),
            sep@ == header_separator(),
            pairs_view(h@) == headers_from(hl.take(i - 1)),
        decreases ls@.len() - i,
    {
        let (a, b) = ls[i];
        assert(ranges_within(head@, ls@) ==> ls@[i as int].0 <= ls@[i as int].1 <= head@.len());
        let line = copy_range(head, a, b);
        assert(line@ == hl[i - 1]);
        assert(hl.take(i as int).drop_last() =~= hl.take(i - 1));
        assert(hl.take(i as int).last() == hl[i - 1]);
        match find(line.as_slice(), sep.as_slice(), 0) {
            Some(j) => {
                proof {
                    lemma_find_from(line@, sep@, 0);
                }
                let key = copy_range(line.as_slice(), 0, j);
                let value = copy_range(line.as_slice(), j + 2, line.len());
                assert(key@ =~= line@.take(j as int));
                assert(value@ =~= line@.skip(j + 2));
                insert_header(&mut h, string_of(key.as_slice()), string_of(value.as_slice()));
            },
            None => {},
        }
        i = i + 1;
    }
    assert(hl.take(ls@.len() - 1) =~= hl);
    h
}

/// Reads a request from its text.
pub fn parse_request_text(text: &str) -> (r: Request)
    ensures
        r@ == parse_text(text@),
{
    let t = chars_of(text);
    let blank: Vec<char> = vec!['\r', '\n', '\r', '\n'];
    assert(blank@ =~= blank_line());
    let head = nth_piece(t.as_slice(), blank.as_slice(), 0);
    let body = nth_piece(t.as_slice(), blank.as_slice(), 1);
    let headers = parse_headers(head.as_slice());
    let ls = line_ranges(head.as_slice());
    assert(texts_of(head@, ls@).len() == ls@.len());
    let line = if ls.len() > 0 {
        let (a, b) = ls[0];
        assert(ranges_within(head@, ls@) ==> ls@[0].0 <= ls@[0].1 <= head@.len());
        assert(texts_of(head@, ls@)[0] == head@.subrange(a as int, b as int));
        copy_range(head.as_slice(), a, b)
    } else {
        Vec::new()
    };
    assert(line@ =~= request_line_of(t@));
    let space: Vec<char> = vec![' '];
    let method = nth_piece(line.as_slice(), space.as_slice(), 0);
    let path = nth_piece(line.as_slice(), space.as_slice(), 1);
    let version = nth_piece(line.as_slice(), space.as_slice(), 2);
    assert(space@ =~= seq![' ']);
    Request {
        request_line: string_of(line.as_slice()),
        headers,
        body: string_of(body.as_slice()),
        method: string_of(method.as_slice()),
        path: string_of(path.as_slice()),
        version: string_of(version.as_slice()),
    }
}

/// Reads a request from the bytes received: they are decoded as
/// `String::from_utf8_lossy` does, then read as `parse_request_text` reads
/// text.
pub fn parse_request(raw: &[u8]) -> (r: Request)
    ensures
        r@ == parse_text(lossy_utf8(raw@)),
        valid_utf8(raw@) ==> r@ == parse_text(decode_utf8(raw@)),
{
    let text = decode_lossy(raw);
    parse_request_text(text.as_str())
}


/// The value that the last of the lines `ls` naming `k` gives it, if any
/// does.
pub open spec fn last_value(ls: Seq<Seq<char>>, k: Seq<char>) -> Option<Seq<char>>
    decreases ls.len(),
{
    if ls.len() == 0 {
        None
    } else {
        match split_once(ls.last(), header_separator()) {
            Some((k2, v)) => if k2 == k {
                Some(v)
            } else {
                last_value(ls.drop_last(), k)
            },
            None => last_value(ls.drop_last(), k),
        }
    }
}

/// The header list that lines build has unique names, and a name's value is
/// the one that the last line naming it gives.
proof fn lemma_headers_from(ls: Seq<Seq<char>>)
    ensures
        unique_keys(headers_from(ls)),
        forall|k: Seq<char>| #[trigger] lookup(headers_from(ls), k) == last_value(ls, k),
    decreases ls.len(),
{
    if ls.len() == 0 {
        assert forall|k: Seq<char>| #[trigger] lookup(headers_from(ls), k) == last_value(ls, k) by {
            lemma_key_index(headers_from(ls), k);
        }
    } else {
        lemma_headers_from(ls.drop_last());
        let h = headers_from(ls.drop_last());
        match split_once(ls.last(), header_separator()) {
            Some((k, v)) => {
                lemma_insert_pair(h, k, v);
                assert(headers_from(ls) == insert_pair(h, k, v));
                assert forall|k2: Seq<char>| #[trigger] lookup(headers_from(ls), k2) == last_value(ls, k2) by {
                    if k2 != k {
                        assert(lookup(h, k2) == last_value(ls.drop_last(), k2));
                    }
                }
            },
            None => {
                assert(headers_from(ls) == h);
                assert forall|k2: Seq<char>| #[trigger] lookup(headers_from(ls), k2) == last_value(ls, k2) by {
                    assert(lookup(h, k2) == last_value(ls.drop_last(), k2));
                }
            },
        }
    }
}


/// Law: in the headers read from a request every name occurs once, and a
/// name's value is the one that the last header line naming it gives (a
/// later header line with the same name replaces an earlier one).
pub proof fn law_last_header_wins(text: Seq<char>)
    ensures
        unique_keys(parse_text(text).headers),
        forall|k: Seq<char>| #[trigger] lookup(parse_text(text).headers, k) == last_value(header_lines_of(text), k),
{
    lemma_headers_from(header_lines_of(text));
}


/// Law: the body of a request is the text after its first blank line, up
/// to the next blank line or, when there is none, to the end, all of it,
/// single line breaks included; a request without a blank line has no body.
pub proof fn law_body_after_first_blank_line(text: Seq<char>, i: int)
    ensures
        (forall|j: int| 0 <= j ==> !occurs_at(text, blank_line(), j)) ==> parse_text(text).body
            == Seq::<char>::empty(),
        occurs_at(text, blank_line(), i) && (forall|j: int| 0 <= j < i ==> !occurs_at(text, blank_line(), j))
            ==> {
            &&& (forall|j: int| i + 4 <= j ==> !occurs_at(text, blank_line(), j)) ==> parse_text(text).body
                == text.skip(i + 4)
            &&& forall|k: int|
                i + 4 <= k && occurs_at(text, blank_line(), k) && (forall|j: int|
                    i + 4 <= j < k ==> !occurs_at(text, blank_line(), j)) ==> parse_text(text).body
                    == text.subrange(i + 4, k)
        },
{
    let b = blank_line();
    if forall|j: int| 0 <= j ==> !occurs_at(text, b, j) {
        lemma_find_from_skip(text, b, 0, text.len() as int + 1);
        assert(find_from(text, b, 0) is None);
        assert(split_all(text, b) == seq![text.subrange(0, text.len() as int)]);
    }
    if occurs_at(text, b, i) && (forall|j: int| 0 <= j < i ==> !occurs_at(text, b, j)) {
        lemma_first_occurrence(text, b, i);
        let rest = split_from(text, b, i + 4);
        assert(split_all(text, b) == seq![text.subrange(0, i)] + rest);
        if forall|j: int| i + 4 <= j ==> !occurs_at(text, b, j) {
            lemma_find_from_skip(text, b, i + 4, text.len() as int + 1);
            assert(rest == seq![text.subrange(i + 4, text.len() as int)]);
            assert(text.subrange(i + 4, text.len() as int) =~= text.skip(i + 4));
            assert((seq![text.subrange(0, i)] + rest)[1] == text.skip(i + 4));
        }
        assert forall|k: int|
            i + 4 <= k && occurs_at(text, b, k) && (forall|j: int| i + 4 <= j < k ==> !occurs_at(text, b, j))
                implies parse_text(text).body == text.subrange(i + 4, k) by {
            lemma_find_from_skip(text, b, i + 4, k);
            lemma_find_from(text, b, k);
            assert(find_from(text, b, k) == Some(k));
            assert(rest == seq![text.subrange(i + 4, k)] + split_from(text, b, k + 4));
            assert((seq![text.subrange(0, i)] + rest)[1] == text.subrange(i + 4, k));
        }
    }
}

} // verus!
