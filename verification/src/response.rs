//! The bytes the server answers with: status line, headers and body, the
//! directory listing page and the content type of a served file.
use vstd::prelude::*;
use vstd::utf8::encode_utf8;
use crate::conv::{chars_of, lowercase, string_of, to_lowercase};
use crate::headers::{pairs_view, Pairs};
use crate::paths::{extension, path_extension, same_text};
use crate::text::{lemma_first_occurrence, occurs_at, push_all, split_once};

verus! {

/// The decimal digit `d` as a character.
pub open spec fn digit(d: int) -> char {
    (d + 48) as char
}

/// The decimal text of `n`, without leading zeros (as `Display` writes an
/// unsigned integer).
pub open spec fn decimal(n: nat) -> Seq<char>
    decreases n,
{
    if n < 10 {
        seq![digit(n as int)]
    } else {
        decimal(n / 10).push(digit((n % 10) as int))
    }
}

/// A decimal digit.
pub open spec fn is_digit(c: char) -> bool {
    '0' <= c && c <= '9'
}

/// The number that a text of decimal digits stands for.
pub open spec fn decimal_value(s: Seq<char>) -> int
    decreases s.len(),
{
    if s.len() == 0 {
        0
    } else {
        decimal_value(s.drop_last()) * 10 + (s.last() as int - 48)
    }
}

/// Law: the decimal text of a number (as a status code or a
/// `Content-Length` is written) is a nonempty run of digits, without a
/// leading zero unless the number is zero, that reads back as the number.
pub proof fn law_decimal_reads_back(n: nat)
    ensures
        decimal(n).len() >= 1,
        forall|i: int| 0 <= i < decimal(n).len() ==> is_digit(#[trigger] decimal(n)[i]),
        decimal(n)[0] == '0' ==> n == 0,
        decimal_value(decimal(n)) == n,
    decreases n,
{
    if n < 10 {
        assert(decimal(n) == seq![digit(n as int)]);
        assert(decimal(n).drop_last() =~= Seq::<char>::empty());
        assert((n + 48) as char as int == n + 48);
        assert(decimal(n).last() == digit(n as int));
        assert(decimal_value(decimal(n)) == decimal_value(decimal(n).drop_last()) * 10 + (decimal(n).last() as int - 48));
        assert(decimal_value(Seq::<char>::empty()) == 0);
    } else {
        let q = n / 10;
        let r = n % 10;
        law_decimal_reads_back(q);
        assert(decimal(n) == decimal(q).push(digit(r as int)));
        assert(decimal(n).drop_last() =~= decimal(q));
        assert((r + 48) as char as int == r + 48);
        assert(q * 10 + r == n) by (nonlinear_arith)
            requires
                q == n / 10,
                r == n % 10,
        ;
        assert(forall|i: int| 0 <= i < decimal(q).len() ==> decimal(n)[i] == decimal(q)[i]);
        assert(decimal(n).last() == digit(r as int));
        assert(decimal_value(decimal(n)) == decimal_value(decimal(q)) * 10 + (decimal(n).last() as int - 48));
    }
}

/// A text without carriage returns or line feeds.
pub open spec fn is_clean(s: Seq<char>) -> bool {
    forall|i: int| 0 <= i < s.len() ==> #[trigger] s[i] != '\r' && s[i] != '\n'
}

/// Lines, each followed by a carriage return and a line feed.
pub open spec fn crlf_lines(ls: Seq<Seq<char>>) -> Seq<char>
    decreases ls.len(),
{
    if ls.len() == 0 {
        Seq::empty()
    } else {
        crlf_lines(ls.drop_last()) + ls.last() + seq!['\r', '\n']
    }
}

/// In nonempty clean lines each ended by a line break, no carriage return
/// is followed, one character later, by another one; the text ends with a
/// line break.
pub proof fn lemma_crlf_lines(ls: Seq<Seq<char>>)
    requires
        forall|k: int| 0 <= k < ls.len() ==> is_clean(#[trigger] ls[k]) && ls[k].len() > 0,
    ensures
        forall|i: int|
            0 <= i && i + 2 < crlf_lines(ls).len() && #[trigger] crlf_lines(ls)[i] == '\r' ==> crlf_lines(
                ls,
            )[i + 2] != '\r',
        ls.len() > 0 ==> crlf_lines(ls).len() >= 3 && crlf_lines(ls)[crlf_lines(ls).len() - 2] == '\r'
            && crlf_lines(ls)[crlf_lines(ls).len() - 1] == '\n',
        ls.len() == 0 ==> crlf_lines(ls).len() == 0,
    decreases ls.len(),
{
    if ls.len() > 0 {
        let prev = ls.drop_last();
        assert forall|k: int| 0 <= k < prev.len() implies is_clean(#[trigger] prev[k]) && prev[k].len() > 0 by {
            assert(prev[k] == ls[k]);
        }
        lemma_crlf_lines(prev);
        let a = crlf_lines(prev);
        let l = ls.last();
        assert(is_clean(ls[ls.len() - 1]));
        let t = crlf_lines(ls);
        assert(t == a + l + seq!['\r', '\n']);
        assert forall|i: int| 0 <= i && i + 2 < t.len() && #[trigger] t[i] == '\r' implies t[i + 2] != '\r' by {
            if i + 2 < a.len() {
                assert(t[i] == a[i] && t[i + 2] == a[i + 2]);
            } else if i == a.len() - 2 {
                assert(t[i + 2] == l[0]);
            } else if i == a.len() - 1 {
                assert(t[i] == a[i]);
            } else if i < a.len() + l.len() {
                assert(t[i] == l[i - a.len()]);
            } else {
                assert(i == a.len() + l.len() + 1);
                assert(t[i] == '\n');
            }
        }
    }
}

/// Law: a reply's head ends at its first blank line and the rest is exactly
/// the body, so a client that reads the head up to the first blank line and
/// then `Content-Length` bytes gets the body, whatever the body holds, when
/// the status text and content type hold no line breaks (as the server's
/// own always do).
pub proof fn law_reply_framing(code: nat, status: Seq<char>, content_type: Seq<char>, message: Seq<char>)
    requires
        is_clean(status),
        is_clean(content_type),
    ensures
        ({
            let head = response_head(code, status, content_type, utf8_len(message));
            let text = response_text(code, status, content_type, message);
            split_once(text, seq!['\r', '\n', '\r', '\n']) == Some((head.take(head.len() - 4), message))
        }),
{
    reveal_strlit("HTTP/1.1 ");
    reveal_strlit(" ");
    reveal_strlit("\r\n");
    reveal_strlit("Content-Type: ");
    reveal_strlit("Content-Length: ");
    reveal_strlit("Connection: close");
    reveal_strlit("Connection: close\r\n\r\n");
    let len = utf8_len(message);
    law_decimal_reads_back(code);
    law_decimal_reads_back(len);
    let crlf = seq!['\r', '\n'];
    assert("\r\n"@ =~= crlf);
    assert("Connection: close\r\n\r\n"@ =~= "Connection: close"@ + crlf + crlf);
    let l1 = "HTTP/1.1 "@ + decimal(code) + " "@ + status;
    let l2 = "Content-Type: "@ + content_type;
    let l3 = "Content-Length: "@ + decimal(len);
    let l4 = "Connection: close"@;
    let ls = seq![l1, l2, l3, l4];
    assert(is_clean(l1)) by {
        assert forall|i: int| 0 <= i < l1.len() implies #[trigger] l1[i] != '\r' && l1[i] != '\n' by {
            let d = decimal(code);
            if 9 <= i < 9 + d.len() {
                assert(is_digit(d[i - 9]));
            }
        }
    }
    assert(is_clean(l2)) by {
        assert forall|i: int| 0 <= i < l2.len() implies #[trigger] l2[i] != '\r' && l2[i] != '\n' by {
            if 14 <= i {
                assert(l2[i] == content_type[i - 14]);
            }
        }
    }
    assert(is_clean(l3)) by {
        assert forall|i: int| 0 <= i < l3.len() implies #[trigger] l3[i] != '\r' && l3[i] != '\n' by {
            let d = decimal(len);
            if 16 <= i {
                assert(is_digit(d[i - 16]));
            }
        }
    }
    assert(is_clean(l4));
    assert forall|k: int| 0 <= k < ls.len() implies is_clean(#[trigger] ls[k]) && ls[k].len() > 0 by {
        if k == 0 {
        } else if k == 1 {
        } else if k == 2 {
        } else {
        }
    }
    lemma_crlf_lines(ls);
    let c = crlf_lines(ls);
    assert(ls.drop_last().drop_last().drop_last().drop_last() =~= Seq::<Seq<char>>::empty());
    assert(ls.drop_last().drop_last().drop_last() =~= seq![l1]);
    assert(ls.drop_last().drop_last() =~= seq![l1, l2]);
    assert(ls.drop_last() =~= seq![l1, l2, l3]);
    let c1 = crlf_lines(seq![l1]);
    let c2 = crlf_lines(seq![l1, l2]);
    let c3 = crlf_lines(seq![l1, l2, l3]);
    assert(seq![l1].drop_last() =~= Seq::<Seq<char>>::empty());
    assert(seq![l1, l2].drop_last() =~= seq![l1]);
    assert(seq![l1, l2, l3].drop_last() =~= seq![l1, l2]);
    assert(crlf_lines(Seq::<Seq<char>>::empty()) =~= Seq::<char>::empty());
    assert(seq![l1].last() == l1);
    assert(seq![l1, l2].last() == l2);
    assert(seq![l1, l2, l3].last() == l3);
    assert(ls.last() == l4);
    assert(c1 == crlf_lines(Seq::<Seq<char>>::empty()) + l1 + crlf);
    assert(c1 =~= l1 + crlf);
    assert(c2 =~= c1 + l2 + crlf);
    assert(c3 =~= c2 + l3 + crlf);
    assert(c =~= c3 + l4 + crlf);
    assert(c =~= l1 + crlf + l2 + crlf + l3 + crlf + l4 + crlf);
    let head = response_head(code, status, content_type, len);
    assert(head =~= c + crlf);
    let text = response_text(code, status, content_type, message);
    assert(text =~= c + crlf + message);
    let blank = seq!['\r', '\n', '\r', '\n'];
    let k = c.len() - 2;
    assert(text.subrange(k, k + 4) =~= blank);
    assert forall|j: int| 0 <= j < k implies !occurs_at(text, blank, j) by {
        if occurs_at(text, blank, j) {
            assert(text.subrange(j, j + 4)[0] == blank[0]);
            assert(text.subrange(j, j + 4)[2] == blank[2]);
            assert(c[j] == '\r');
            assert(c[j + 2] == '\r');
        }
    }
    lemma_first_occurrence(text, blank, k);
    assert(text.take(k) =~= head.take(head.len() - 4));
    assert(text.skip(k + 4) =~= message);
}

/// The number of bytes that the UTF-8 encoding of `s` takes (`str::len`).
pub open spec fn utf8_len(s: Seq<char>) -> nat {
    encode_utf8(s).len()
}

/// Appends the decimal text of `n` to `out`.
pub fn push_decimal(out: &mut Vec<char>, n: u64)
    ensures
        final(out)@ == old(out)@ + decimal(n as nat),
    decreases n,
{
    if n >= 10 {
        push_decimal(out, n / 10);
    }
    let d = (n % 10) as u8;
    let c = (48u8 + d) as char;
    assert(c == digit(d as int));
    out.push(c);
    assert(out@ =~= old(out)@ + decimal(n as nat));
}

/// Appends the characters of `s` to `out`.
pub fn push_str(out: &mut Vec<char>, s: &str)
    ensures
        final(out)@ == old(out)@ + s@,
{
    let c = chars_of(s);
    push_all(out, c.as_slice());
}

/// `HTTP/1.1 <code> <status>` and a line end.
pub open spec fn status_line(code: nat, status: Seq<char>) -> Seq<char> {
    "HTTP/1.1 "@ + decimal(code) + " "@ + status + "\r\n"@
}

/// The head of a response with one content type and a body of `len` bytes.
pub open spec fn response_head(code: nat, status: Seq<char>, content_type: Seq<char>, len: nat) -> Seq<char> {
    status_line(code, status) + "Content-Type: "@ + content_type + "\r\n"@ + "Content-Length: "@
        + decimal(len) + "\r\n"@ + "Connection: close\r\n\r\n"@
}

/// A whole response that carries `message` as its body.
pub open spec fn response_text(code: nat, status: Seq<char>, content_type: Seq<char>, message: Seq<char>) -> Seq<char> {
    response_head(code, status, content_type, utf8_len(message)) + message
}

/// Appends the status line.
fn push_status_line(out: &mut Vec<char>, code: u32, status: &str)
    ensures
        final(out)@ == old(out)@ + status_line(code as nat, status@),
{
    push_str(out, "HTTP/1.1 ");
    push_decimal(out, code as u64);
    push_str(out, " ");
    push_str(out, status);
    push_str(out, "\r\n");
    assert(out@ =~= old(out)@ + status_line(code as nat, status@));
}

/// The head of a response whose body is `len` bytes of `content_type`.
pub fn build_head(code: u32, status: &str, content_type: &str, len: usize) -> (r: String)
    ensures
        r@ == response_head(code as nat, status@, content_type@, len as nat),
{
    let mut out: Vec<char> = Vec::new();
    push_status_line(&mut out, code, status);
    push_str(&mut out, "Content-Type: ");
    push_str(&mut out, content_type);
    push_str(&mut out, "\r\n");
    push_str(&mut out, "Content-Length: ");
    push_decimal(&mut out, len as u64);
    push_str(&mut out, "\r\n");
    push_str(&mut out, "Connection: close\r\n\r\n");
    assert(out@ =~= response_head(code as nat, status@, content_type@, len as nat));
    string_of(out.as_slice())
}

/// The response that carries `message` (what `send_response` writes).
pub fn build_response(code: u32, status: &str, content_type: &str, message: &str) -> (r: String)
    ensures
        r@ == response_text(code as nat, status@, content_type@, message@),
{
    let len = message.as_bytes().len();
    let mut out: Vec<char> = Vec::new();
    push_status_line(&mut out, code, status);
    push_str(&mut out, "Content-Type: ");
    push_str(&mut out, content_type);
    push_str(&mut out, "\r\n");
    push_str(&mut out, "Content-Length: ");
    push_decimal(&mut out, len as u64);
    push_str(&mut out, "\r\n");
    push_str(&mut out, "Connection: close\r\n\r\n");
    push_str(&mut out, message);
    assert(out@ =~= response_text(code as nat, status@, content_type@, message@));
    string_of(out.as_slice())
}

/// The header lines `name: value` of a header list, in its order.
pub open spec fn header_block(h: Pairs) -> Seq<char>
    decreases h.len(),
{
    if h.len() == 0 {
        Seq::empty()
    } else {
        header_block(h.drop_last()) + h.last().0 + ": "@ + h.last().1 + "\r\n"@
    }
}

/// Some header's name is `Content-Length` in any case.
pub open spec fn names_content_length(h: Pairs) -> bool {
    exists|i: int| 0 <= i < h.len() && lowercase(#[trigger] h[i].0) == "content-length"@
}

/// The response to a script run (what `send_script_response` writes): the
/// script's headers in the list's order, a `Content-Length` of the body's
/// bytes unless the script named one, and the body.
pub open spec fn script_response_text(code: nat, status: Seq<char>, h: Pairs, body: Seq<char>) -> Seq<char> {
    status_line(code, status) + header_block(h) + (if names_content_length(h) {
        Seq::empty()
    } else {
        "Content-Length: "@ + decimal(utf8_len(body)) + "\r\n"@
    }) + "Connection: close\r\n\r\n"@ + body
}

/// The response to a script run.
pub fn build_script_response(code: u32, status: &str, headers: &Vec<(String, String)>, body: &str) -> (r: String)
    ensures
        r@ == script_response_text(code as nat, status@, pairs_view(headers@), body@),
{
    let ghost h = pairs_view(headers@);
    let mut out: Vec<char> = Vec::new();
    push_status_line(&mut out, code, status);
    let ghost start = out@;
    let target = chars_of("content-length");
    let mut named = false;
    let mut i: usize = 0;
    while i < headers.len()
        invariant
            i <= headers@.len(),
            h == pairs_view(headers@),
            h.len() == headers@.len(),
            target@ == "content-length"@,
            out@ == start + header_block(h.take(i as int)),
            named == exists|j: int| 0 <= j < i && lowercase(#[trigger] h[j].0) == "content-length"@,
        decreases headers@.len() - i,
    {
        let (k, v) = (&headers[i].0, &headers[i].1);
        assert(h[i as int] == (k@, v@));
        let lower = to_lowercase(k.as_str());
        let lc = chars_of(lower.as_str());
        if same_text(lc.as_slice(), target.as_slice()) {
            named = true;
        }
        push_str(&mut out, k.as_str());
        push_str(&mut out, ": ");
        push_str(&mut out, v.as_str());
        push_str(&mut out, "\r\n");
        assert(h.take(i + 1).drop_last() =~= h.take(i as int));
        assert(h.take(i + 1).last() == h[i as int]);
        assert(out@ =~= start + header_block(h.take(i + 1)));
        i = i + 1;
    }
    assert(h.take(headers@.len() as int) =~= h);
    if !named {
        push_str(&mut out, "Content-Length: ");
        push_decimal(&mut out, body.as_bytes().len() as u64);
        push_str(&mut out, "\r\n");
    }
    push_str(&mut out, "Connection: close\r\n\r\n");
    push_str(&mut out, body);
    assert(out@ =~= script_response_text(code as nat, status@, h, body@));
    string_of(out.as_slice())
}


/// The content type that a file extension is served with.
pub open spec fn content_type_of(ext: Option<Seq<char>>) -> Seq<char> {
    match ext {
        Some(e) => if e == "txt"@ {
            "text/plain; charset=utf-8"@
        } else if e == "html"@ {
            "text/html; charset=utf-8"@
        } else if e == "css"@ {
            "text/css; charset=utf-8"@
        } else if e == "js"@ {
            "text/javascript; charset=utf-8"@
        } else if e == "jpg"@ || e == "jpeg"@ {
            "image/jpeg"@
        } else if e == "png"@ {
            "image/png"@
        } else if e == "zip"@ {
            "application/zip"@
        } else {
            "application/octet-stream"@
        },
        None => "application/octet-stream"@,
    }
}

/// Whether the text `e` is `lit`.
fn is_text(e: &[char], lit: &str) -> (r: bool)
    ensures
        r == (e@ == lit@),
{
    let l = chars_of(lit);
    same_text(e, l.as_slice())
}

/// The content type of the file at `path`, by its extension.
pub fn get_content_type(path: &str) -> (r: String)
    ensures
        r@ == content_type_of(extension(path@)),
{
    let p = chars_of(path);
    let t = match path_extension(p.as_slice()) {
        Some(e) => {
            let e = e.as_slice();
            if is_text(e, "txt") {
                "text/plain; charset=utf-8"
            } else if is_text(e, "html") {
                "text/html; charset=utf-8"
            } else if is_text(e, "css") {
                "text/css; charset=utf-8"
            } else if is_text(e, "js") {
                "text/javascript; charset=utf-8"
            } else if is_text(e, "jpg") || is_text(e, "jpeg") {
                "image/jpeg"
            } else if is_text(e, "png") {
                "image/png"
            } else if is_text(e, "zip") {
                "application/zip"
            } else {
                "application/octet-stream"
            }
        },
        None => "application/octet-stream",
    };
    t.to_owned()
}

/// The entries of a directory listing page, one list item per name.
pub open spec fn listing_items(names: Seq<Seq<char>>) -> Seq<char>
    decreases names.len(),
{
    if names.len() == 0 {
        Seq::empty()
    } else {
        listing_items(names.drop_last()) + "<li><a href=\""@ + names.last() + "\">"@ + names.last()
            + "</a></li>"@
    }
}

/// The directory listing page for the given entry names.
pub open spec fn listing_page(names: Seq<Seq<char>>) -> Seq<char> {
    "<html><h1>Directory Listing</h1><ul>"@ + "<li><a href=\"..\">..</a></li>"@ + listing_items(names)
        + "</ul></html>"@
}

/// The texts of a list of strings.
pub open spec fn string_views(v: Seq<String>) -> Seq<Seq<char>> {
    v.map_values(|s: String| s@)
}

/// The directory listing page for the given entry names, in their order.
pub fn listing_html(names: &Vec<String>) -> (r: String)
    ensures
        r@ == listing_page(string_views(names@)),
{
    let ghost ns = string_views(names@);
    let mut out: Vec<char> = Vec::new();
    push_str(&mut out, "<html><h1>Directory Listing</h1><ul>");
    push_str(&mut out, "<li><a href=\"..\">..</a></li>");
    let ghost start = out@;
    let mut i: usize = 0;
    while i < names.len()
        invariant
            i <= names@.len(),
            ns == string_views(names@),
            ns.len() == names@.len(),
            out@ == start + listing_items(ns.take(i as int)),
        decreases names@.len() - i,
    {
        let n = names[i].as_str();
        assert(ns[i as int] == n@);
        push_str(&mut out, "<li><a href=\"");
        push_str(&mut out, n);
        push_str(&mut out, "\">");
        push_str(&mut out, n);
        push_str(&mut out, "</a></li>");
        assert(ns.take(i + 1).drop_last() =~= ns.take(i as int));
        assert(ns.take(i + 1).last() == ns[i as int]);
        assert(out@ =~= start + listing_items(ns.take(i + 1)));
        i = i + 1;
    }
    assert(ns.take(names@.len() as int) =~= ns);
    push_str(&mut out, "</ul></html>");
    assert(out@ =~= listing_page(ns));
    string_of(out.as_slice())
}


/// Line breaks after a concatenation of lines are those after each part.
proof fn lemma_crlf_lines_add(a: Seq<Seq<char>>, b: Seq<Seq<char>>)
    ensures
        crlf_lines(a + b) == crlf_lines(a) + crlf_lines(b),
    decreases b.len(),
{
    if b.len() == 0 {
        assert(a + b =~= a);
        assert(crlf_lines(b) =~= Seq::<char>::empty());
        assert(crlf_lines(a) + crlf_lines(b) =~= crlf_lines(a));
    } else {
        lemma_crlf_lines_add(a, b.drop_last());
        assert((a + b).drop_last() =~= a + b.drop_last());
        assert((a + b).last() == b.last());
        assert(crlf_lines(a + b) =~= crlf_lines(a) + crlf_lines(b));
    }
}

/// The header lines of a header list, without their line breaks.
pub open spec fn header_lines(h: Pairs) -> Seq<Seq<char>> {
    h.map_values(|p: (Seq<char>, Seq<char>)| p.0 + ": "@ + p.1)
}

/// The header block is the header lines, each ended by a line break.
proof fn lemma_header_block(h: Pairs)
    ensures
        header_block(h) == crlf_lines(header_lines(h)),
    decreases h.len(),
{
    reveal_strlit("\r\n");
    assert("\r\n"@ =~= seq!['\r', '\n']);
    if h.len() == 0 {
        assert(header_lines(h) =~= Seq::<Seq<char>>::empty());
    } else {
        lemma_header_block(h.drop_last());
        assert(header_lines(h).drop_last() =~= header_lines(h.drop_last()));
        assert(header_lines(h).last() == h.last().0 + ": "@ + h.last().1);
        assert(header_block(h) =~= crlf_lines(header_lines(h)));
    }
}

/// Law: a script's reply, too, has its head end at the first blank line
/// with exactly the body after it, when the status text and every header
/// name and value hold no line breaks.
pub proof fn law_script_reply_framing(code: nat, status: Seq<char>, h: Pairs, body: Seq<char>)
    requires
        is_clean(status),
        forall|i: int| 0 <= i < h.len() ==> is_clean(#[trigger] h[i].0) && is_clean(h[i].1),
    ensures
        ({
            let text = script_response_text(code, status, h, body);
            split_once(text, seq!['\r', '\n', '\r', '\n']) == Some((text.take(text.len() - body.len() - 4), body))
        }),
{
    reveal_strlit("HTTP/1.1 ");
    reveal_strlit(" ");
    reveal_strlit(": ");
    reveal_strlit("\r\n");
    reveal_strlit("Content-Length: ");
    reveal_strlit("Connection: close");
    reveal_strlit("Connection: close\r\n\r\n");
    let len = utf8_len(body);
    law_decimal_reads_back(code);
    law_decimal_reads_back(len);
    let crlf = seq!['\r', '\n'];
    assert("\r\n"@ =~= crlf);
    assert("Connection: close\r\n\r\n"@ =~= "Connection: close"@ + crlf + crlf);
    let l1 = "HTTP/1.1 "@ + decimal(code) + " "@ + status;
    let l3 = "Content-Length: "@ + decimal(len);
    let l4 = "Connection: close"@;
    assert(is_clean(l1)) by {
        assert forall|i: int| 0 <= i < l1.len() implies #[trigger] l1[i] != '\r' && l1[i] != '\n' by {
            let d = decimal(code);
            if 9 <= i < 9 + d.len() {
                assert(is_digit(d[i - 9]));
            }
        }
    }
    assert(is_clean(l3)) by {
        assert forall|i: int| 0 <= i < l3.len() implies #[trigger] l3[i] != '\r' && l3[i] != '\n' by {
            let d = decimal(len);
            if 16 <= i {
                assert(is_digit(d[i - 16]));
            }
        }
    }
    assert(is_clean(l4));
    let hl = header_lines(h);
    assert forall|k: int| 0 <= k < hl.len() implies is_clean(#[trigger] hl[k]) && hl[k].len() > 0 by {
        let line = hl[k];
        assert(line == h[k].0 + ": "@ + h[k].1);
        assert forall|i: int| 0 <= i < line.len() implies #[trigger] line[i] != '\r' && line[i] != '\n' by {
            if i < h[k].0.len() {
                assert(line[i] == h[k].0[i]);
            } else if i >= h[k].0.len() + 2 {
                assert(line[i] == h[k].1[i - h[k].0.len() - 2]);
            }
        }
    }
    let tail: Seq<Seq<char>> = if names_content_length(h) {
        seq![l4]
    } else {
        seq![l3, l4]
    };
    let ls = seq![l1] + hl + tail;
    assert forall|k: int| 0 <= k < ls.len() implies is_clean(#[trigger] ls[k]) && ls[k].len() > 0 by {
        if k == 0 {
            assert(ls[k] == l1);
        } else if k <= hl.len() {
            assert(ls[k] == hl[k - 1]);
        } else {
            assert(ls[k] == tail[k - 1 - hl.len()]);
        }
    }
    lemma_crlf_lines(ls);
    lemma_crlf_lines_add(seq![l1] + hl, tail);
    lemma_crlf_lines_add(seq![l1], hl);
    lemma_header_block(h);
    assert(seq![l1].drop_last() =~= Seq::<Seq<char>>::empty());
    assert(crlf_lines(Seq::<Seq<char>>::empty()) =~= Seq::<char>::empty());
    assert(crlf_lines(seq![l1]) =~= l1 + crlf);
    if names_content_length(h) {
        assert(seq![l4].drop_last() =~= Seq::<Seq<char>>::empty());
        assert(crlf_lines(tail) =~= l4 + crlf);
    } else {
        assert(seq![l3, l4].drop_last() =~= seq![l3]);
        assert(seq![l3].drop_last() =~= Seq::<Seq<char>>::empty());
        assert(crlf_lines(seq![l3]) =~= l3 + crlf);
        assert(crlf_lines(tail) =~= l3 + crlf + l4 + crlf);
    }
    let c = crlf_lines(ls);
    let text = script_response_text(code, status, h, body);
    assert(text =~= c + crlf + body);
    let blank = seq!['\r', '\n', '\r', '\n'];
    let k = c.len() - 2;
    assert(text.subrange(k, k + 4) =~= blank);
    assert forall|j: int| 0 <= j < k implies !occurs_at(text, blank, j) by {
        if occurs_at(text, blank, j) {
            assert(text.subrange(j, j + 4)[0] == blank[0]);
            assert(text.subrange(j, j + 4)[2] == blank[2]);
            assert(c[j] == '\r');
            assert(c[j + 2] == '\r');
        }
    }
    lemma_first_occurrence(text, blank, k);
    assert(text.skip(k + 4) =~= body);
}


/// A run of decimal digits.
pub open spec fn all_digits(d: Seq<char>) -> bool {
    d.len() >= 1 && forall|i: int| 0 <= i < d.len() ==> is_digit(#[trigger] d[i])
}

/// Law: the head of a reply states as its `Content-Length` exactly the
/// length it is given: it ends with `Content-Length: `, a run of digits that
/// reads back as `len`, and the closing `Connection` line.
pub proof fn law_head_states_length(code: nat, status: Seq<char>, content_type: Seq<char>, len: nat)
    ensures
        exists|pre: Seq<char>, d: Seq<char>|
            response_head(code, status, content_type, len) == pre + "Content-Length: "@ + d + "\r\n"@
                + "Connection: close\r\n\r\n"@ && all_digits(d) && decimal_value(d) == len,
{
    law_decimal_reads_back(len);
    let pre = status_line(code, status) + "Content-Type: "@ + content_type + "\r\n"@;
    let d = decimal(len);
    assert(response_head(code, status, content_type, len) =~= pre + "Content-Length: "@ + d + "\r\n"@
        + "Connection: close\r\n\r\n"@);
}

/// Law: a reply that carries `message` states as its `Content-Length` the
/// number of bytes of the message's UTF-8 encoding (not of its characters),
/// and the message follows the head unchanged.
pub proof fn law_reply_states_byte_length(code: nat, status: Seq<char>, content_type: Seq<char>, message: Seq<char>)
    ensures
        exists|pre: Seq<char>, d: Seq<char>|
            response_text(code, status, content_type, message) == pre + "Content-Length: "@ + d + "\r\n"@
                + "Connection: close\r\n\r\n"@ + message && all_digits(d) && decimal_value(d)
                == encode_utf8(message).len(),
{
    let len = encode_utf8(message).len();
    law_decimal_reads_back(len);
    let pre = status_line(code, status) + "Content-Type: "@ + content_type + "\r\n"@;
    let d = decimal(len);
    assert(response_text(code, status, content_type, message) =~= pre + "Content-Length: "@ + d + "\r\n"@
        + "Connection: close\r\n\r\n"@ + message);
}

/// Law: when no script header names `Content-Length`, the script's reply
/// adds one that states the number of bytes of the body's UTF-8 encoding
/// (not of its characters), right before the closing `Connection` line and
/// the unchanged body; when one does, the reply adds none and the script's
/// headers stand right before the `Connection` line.
pub proof fn law_script_reply_states_byte_length(code: nat, status: Seq<char>, h: Pairs, body: Seq<char>)
    ensures
        !names_content_length(h) ==> exists|pre: Seq<char>, d: Seq<char>|
            script_response_text(code, status, h, body) == pre + "Content-Length: "@ + d + "\r\n"@
                + "Connection: close\r\n\r\n"@ + body && all_digits(d) && decimal_value(d)
                == encode_utf8(body).len(),
        names_content_length(h) ==> script_response_text(code, status, h, body) == status_line(code, status)
            + header_block(h) + "Connection: close\r\n\r\n"@ + body,
{
    let len = encode_utf8(body).len();
    law_decimal_reads_back(len);
    let pre = status_line(code, status) + header_block(h);
    let d = decimal(len);
    if !names_content_length(h) {
        assert(script_response_text(code, status, h, body) =~= pre + "Content-Length: "@ + d + "\r\n"@
            + "Connection: close\r\n\r\n"@ + body);
    } else {
        assert(script_response_text(code, status, h, body) =~= status_line(code, status) + header_block(h)
            + "Connection: close\r\n\r\n"@ + body);
    }
}

} // verus!
