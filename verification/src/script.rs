//! Running a script: which program a request names, the environment it is
//! given, and how its output is read back into headers and a body.
use vstd::prelude::*;
use vstd::utf8::{decode_utf8, valid_utf8};
use crate::conv::{chars_of, decode_lossy, is_white_space, lossy_utf8, string_of, white_space};
use crate::headers::{
    insert_header, insert_pair, lemma_insert_pair, lookup, pairs_view, unique_keys, Pairs,
};
use crate::paths::{join, join_path, trim_prefix, trim_prefix_all};
use crate::text::{
    copy_range, find, has_prefix, lemma_find_from, lemma_first_occurrence, occurs_at, line_ranges, lines, push_all, ranges_within, split_all,
    split_once, split_ranges, texts_of,
};

verus! {

/// The part of a request path before its first `?` (all of it if there is
/// none).
pub open spec fn script_part(path: Seq<char>) -> Seq<char> {
    match split_once(path, seq!['?']) {
        Some((a, _)) => a,
        None => path,
    }
}

/// The query of a request path: the text after its first `?`, if any.
pub open spec fn query_part(path: Seq<char>) -> Option<Seq<char>> {
    match split_once(path, seq!['?']) {
        Some((_, q)) => Some(q),
        None => None,
    }
}

/// The program that a script request names: `<root>/scripts` joined with
/// the path before `?`, every leading `/scripts/` taken off.
pub open spec fn script_program(root: Seq<char>, path: Seq<char>) -> Seq<char> {
    join(join(root, "scripts"@), trim_prefix_all(script_part(path), "/scripts/"@))
}

/// The environment after the `name=value` parameters of a query, each set as
/// `QUERY_name`; parameters without `=` are ignored.
pub open spec fn with_query(env: Pairs, params: Seq<Seq<char>>) -> Pairs
    decreases params.len(),
{
    if params.len() == 0 {
        env
    } else {
        let e = with_query(env, params.drop_last());
        match split_once(params.last(), seq!['=']) {
            Some((k, v)) => insert_pair(e, "QUERY_"@ + k, v),
            None => e,
        }
    }
}

/// The whole environment of a script: the request headers, then `METHOD`
/// and `PATH`, then the query parameters; a later setting of a name wins.
pub open spec fn script_env(headers: Pairs, method: Seq<char>, path: Seq<char>) -> Pairs {
    let e = insert_pair(insert_pair(headers, "METHOD"@, method), "PATH"@, path);
    match query_part(path) {
        Some(q) => with_query(e, split_all(q, seq!['&'])),
        None => e,
    }
}

/// The part of a request path before its first `?`.
pub fn script_part_of(path: &str) -> (r: String)
    ensures
        r@ == script_part(path@),
{
    let p = chars_of(path);
    let part = before_query(p.as_slice());
    string_of(part.as_slice())
}

/// The characters before the first `?`.
fn before_query(p: &[char]) -> (r: Vec<char>)
    ensures
        r@ == script_part(p@),
{
    let plen = p.len();
    let q: Vec<char> = vec!['?'];
    assert(q@ =~= seq!['?']);
    proof {
        lemma_find_from(p@, q@, 0);
    }
    match find(p, q.as_slice(), 0) {
        Some(i) => {
            let part = copy_range(p, 0, i);
            assert(part@ =~= p@.take(i as int));
            part
        },
        None => {
            let part = copy_range(p, 0, plen);
            assert(part@ =~= p@);
            part
        },
    }
}

/// The program that a script request names.
pub fn script_path(root: &str, path: &str) -> (r: String)
    ensures
        r@ == script_program(root@, path@),
{
    let p = chars_of(path);
    let part = before_query(p.as_slice());
    let prefix = chars_of("/scripts/");
    proof {
        reveal_strlit("/scripts/");
    }
    let rel = trim_prefix(part.as_slice(), prefix.as_slice());
    let r = chars_of(root);
    let s = chars_of("scripts");
    let dir = join_path(r.as_slice(), s.as_slice());
    let full = join_path(dir.as_slice(), rel.as_slice());
    string_of(full.as_slice())
}

/// A copy of a header list.
fn copy_pairs(h: &Vec<(String, String)>) -> (r: Vec<(String, String)>)
    ensures
        pairs_view(r@) == pairs_view(h@),
{
    let mut r: Vec<(String, String)> = Vec::new();
    let mut i: usize = 0;
    while i < h.len()
        invariant
            i <= h@.len(),
            pairs_view(r@) == pairs_view(h@).take(i as int),
        decreases h@.len() - i,
    {
        let k = h[i].0.clone();
        let v = h[i].1.clone();
        assert(k == h@[i as int].0 && v == h@[i as int].1);
        let ghost before = r@;
        r.push((k, v));
        assert(pairs_view(h@)[i as int] == (h@[i as int].0@, h@[i as int].1@));
        assert(pairs_view(r@) =~= pairs_view(before).push((k@, v@)));
        assert(pairs_view(r@) =~= pairs_view(h@).take(i + 1));
        i = i + 1;
    }
    assert(pairs_view(h@).take(h@.len() as int) =~= pairs_view(h@));
    r
}

/// The environment of a script run for `method` and `path` with the request
/// headers `headers`.
pub fn build_script_env(headers: &Vec<(String, String)>, method: &str, path: &str) -> (r: Vec<(String, String)>)
    ensures
        pairs_view(r@) == script_env(pairs_view(headers@), method@, path@),
{
    let mut env = copy_pairs(headers);
    insert_header(&mut env, "METHOD".to_owned(), method.to_owned());
    insert_header(&mut env, "PATH".to_owned(), path.to_owned());
    let p = chars_of(path);
    let plen = p.len();
    let q: Vec<char> = vec!['?'];
    assert(q@ =~= seq!['?']);
    proof {
        lemma_find_from(p@, q@, 0);
    }
    match find(p.as_slice(), q.as_slice(), 0) {
        Some(i) => {
            let query = copy_range(p.as_slice(), i + 1, plen);
            assert(query@ =~= p@.skip(i + 1));
            let amp: Vec<char> = vec!['&'];
            assert(amp@ =~= seq!['&']);
            let eq: Vec<char> = vec!['='];
            assert(eq@ =~= seq!['=']);
            let ranges = split_ranges(query.as_slice(), amp.as_slice(), 0);
            let ghost params = split_all(query@, seq!['&']);
            let ghost base = pairs_view(env@);
            assert(texts_of(query@, ranges@).len() == ranges@.len());
            let mut j: usize = 0;
            while j < ranges.len()
                invariant
                    j <= ranges@.len(),
                    params == texts_of(query@, ranges@),
                    ranges_within(query@, ranges@),
                    eq@ == seq!['='],
                    pairs_view(env@) == with_query(base, params.take(j as int)),
                decreases ranges@.len() - j,
            {
                let (a, b) = ranges[j];
                assert(ranges_within(query@, ranges@) ==> ranges@[j as int].0 <= ranges@[j as int].1 <= query@.len());
                let param = copy_range(query.as_slice(), a, b);
                assert(param@ == params[j as int]);
                assert(params.take(j + 1).drop_last() =~= params.take(j as int));
                assert(params.take(j + 1).last() == params[j as int]);
                proof {
                    lemma_find_from(param@, eq@, 0);
                }
                match find(param.as_slice(), eq.as_slice(), 0) {
                    Some(k) => {
                        let mut name = chars_of("QUERY_");
                        let key = copy_range(param.as_slice(), 0, k);
                        let ghost lead = name@;
                        push_all(&mut name, key.as_slice());
                        let value = copy_range(param.as_slice(), k + 1, param.len());
                        assert(key@ =~= param@.take(k as int));
                        assert(value@ =~= param@.skip(k + 1));
                        assert(name@ =~= "QUERY_"@ + param@.take(k as int));
                        insert_header(&mut env, string_of(name.as_slice()), string_of(value.as_slice()));
                    },
                    None => {},
                }
                j = j + 1;
            }
            assert(params.take(ranges@.len() as int) =~= params);
        },
        None => {},
    }
    env
}

/// `s` without its leading white space.
pub open spec fn trim_start(s: Seq<char>) -> Seq<char>
    decreases s.len(),
{
    if s.len() > 0 && white_space(s[0]) {
        trim_start(s.drop_first())
    } else {
        s
    }
}

/// `s` without its trailing white space (`str::trim_end`).
pub open spec fn trim_end(s: Seq<char>) -> Seq<char>
    decreases s.len(),
{
    if s.len() > 0 && white_space(s.last()) {
        trim_end(s.drop_last())
    } else {
        s
    }
}

/// `s` without white space at either end (`str::trim`).
pub open spec fn trim(s: Seq<char>) -> Seq<char> {
    trim_end(trim_start(s))
}

/// `s` without its leading white space.
fn trim_start_chars(s: &[char]) -> (r: Vec<char>)
    ensures
        r@ == trim_start(s@),
{
    let mut i: usize = 0;
    assert(s@.skip(0) =~= s@);
    while i < s.len() && is_white_space(s[i])
        invariant
            i <= s@.len(),
            trim_start(s@.skip(i as int)) == trim_start(s@),
        decreases s@.len() - i,
    {
        assert(s@.skip(i as int).drop_first() =~= s@.skip(i + 1));
        assert(s@.skip(i as int)[0] == s@[i as int]);
        i = i + 1;
    }
    let r = copy_range(s, i, s.len());
    assert(r@ =~= s@.skip(i as int));
    r
}

/// `s` without its trailing white space.
fn trim_end_chars(s: &[char]) -> (r: Vec<char>)
    ensures
        r@ == trim_end(s@),
{
    let mut i: usize = s.len();
    assert(s@.take(i as int) =~= s@);
    while i > 0 && is_white_space(s[i - 1])
        invariant
            i <= s@.len(),
            trim_end(s@.take(i as int)) == trim_end(s@),
        decreases i,
    {
        assert(s@.take(i as int).drop_last() =~= s@.take(i - 1));
        assert(s@.take(i as int).last() == s@[i - 1]);
        i = i - 1;
    }
    let r = copy_range(s, 0, i);
    assert(r@ =~= s@.take(i as int));
    r
}

/// The state of reading a script's output line by line: the headers so far,
/// the body so far, and whether the blank line that starts the body has been
/// seen.
pub struct OutputState {
    pub headers: Pairs,
    pub body: Seq<char>,
    pub reading_body: bool,
}

/// The state after reading the lines `ls`: before the first empty line,
/// every line with a `:` sets the trimmed text before it to the trimmed text
/// after it; after it, every line is added to the body with a line feed.
pub open spec fn output_state(ls: Seq<Seq<char>>) -> OutputState
    decreases ls.len(),
{
    if ls.len() == 0 {
        OutputState { headers: Seq::empty(), body: Seq::empty(), reading_body: false }
    } else {
        let s = output_state(ls.drop_last());
        let l = ls.last();
        if s.reading_body {
            OutputState { headers: s.headers, body: s.body + l + seq!['\n'], reading_body: true }
        } else if l.len() == 0 {
            OutputState { headers: s.headers, body: s.body, reading_body: true }
        } else {
            match split_once(l, seq![':']) {
                Some((k, v)) => OutputState {
                    headers: insert_pair(s.headers, trim(k), trim(v)),
                    body: s.body,
                    reading_body: false,
                },
                None => s,
            }
        }
    }
}

/// What a script printed, read as headers and a body.
pub struct ScriptOutput {
    pub headers: Vec<(String, String)>,
    pub body: String,
}

/// Reads a script's output text.
pub fn parse_script_output_text(text: &str) -> (r: ScriptOutput)
    ensures
        pairs_view(r.headers@) == output_state(lines(text@)).headers,
        r.body@ == trim_end(output_state(lines(text@)).body),
{
    let t = chars_of(text);
    let ls = line_ranges(t.as_slice());
    let ghost all = lines(t@);
    assert(texts_of(t@, ls@).len() == ls@.len());
    let colon: Vec<char> = vec![':'];
    assert(colon@ =~= seq![':']);
    let mut headers: Vec<(String, String)> = Vec::new();
    let mut body: Vec<char> = Vec::new();
    let mut reading_body = false;
    let mut i: usize = 0;
    while i < ls.len()
        invariant
            i <= ls@.len(),
            all == texts_of(t@, ls@),
            ranges_within(t@, ls@),
            colon@ == seq![':'],
            pairs_view(headers@) == output_state(all.take(i as int)).headers,
            body@ == output_state(all.take(i as int)).body,
            reading_body == output_state(all.take(i as int)).reading_body,
        decreases ls@.len() - i,
    {
        let (a, b) = ls[i];
        assert(ranges_within(t@, ls@) ==> ls@[i as int].0 <= ls@[i as int].1 <= t@.len());
        let line = copy_range(t.as_slice(), a, b);
        assert(line@ == all[i as int]);
        assert(all.take(i + 1).drop_last() =~= all.take(i as int));
        assert(all.take(i + 1).last() == all[i as int]);
        if reading_body {
            push_all(&mut body, line.as_slice());
            body.push('\n');
        } else if line.len() == 0 {
            reading_body = true;
        } else {
            proof {
                lemma_find_from(line@, colon@, 0);
            }
            match find(line.as_slice(), colon.as_slice(), 0) {
                Some(j) => {
                    let key = copy_range(line.as_slice(), 0, j);
                    let value = copy_range(line.as_slice(), j + 1, line.len());
                    assert(key@ =~= line@.take(j as int));
                    assert(value@ =~= line@.skip(j + 1));
                    let k = trim_end_chars(trim_start_chars(key.as_slice()).as_slice());
                    let v = trim_end_chars(trim_start_chars(value.as_slice()).as_slice());
                    insert_header(&mut headers, string_of(k.as_slice()), string_of(v.as_slice()));
                },
                None => {},
            }
        }
        i = i + 1;
    }
    assert(all.take(ls@.len() as int) =~= all);
    let trimmed = trim_end_chars(body.as_slice());
    ScriptOutput { headers, body: string_of(trimmed.as_slice()) }
}

/// Reads what a script wrote to its standard output: the bytes are decoded
/// as `String::from_utf8_lossy` does, then read as
/// `parse_script_output_text` reads text.
pub fn parse_script_output(stdout: &[u8]) -> (r: ScriptOutput)
    ensures
        pairs_view(r.headers@) == output_state(lines(lossy_utf8(stdout@))).headers,
        r.body@ == trim_end(output_state(lines(lossy_utf8(stdout@))).body),
        valid_utf8(stdout@) ==> pairs_view(r.headers@) == output_state(lines(decode_utf8(stdout@))).headers
            && r.body@ == trim_end(output_state(lines(decode_utf8(stdout@))).body),
{
    let text = decode_lossy(stdout);
    parse_script_output_text(text.as_str())
}


/// Query parameters set only names that begin with `QUERY_`, and keep names
/// unique.
proof fn lemma_with_query(env: Pairs, params: Seq<Seq<char>>)
    requires
        unique_keys(env),
    ensures
        unique_keys(with_query(env, params)),
        forall|k: Seq<char>| !has_prefix(k, "QUERY_"@) ==> #[trigger] lookup(with_query(env, params), k) == lookup(env, k),
    decreases params.len(),
{
    if params.len() > 0 {
        lemma_with_query(env, params.drop_last());
        let e = with_query(env, params.drop_last());
        match split_once(params.last(), seq!['=']) {
            Some((k, v)) => {
                let name = "QUERY_"@ + k;
                lemma_insert_pair(e, name, v);
                assert(name.take(6) =~= "QUERY_"@) by {
                    reveal_strlit("QUERY_");
                }
                assert forall|k2: Seq<char>| !has_prefix(k2, "QUERY_"@) implies #[trigger] lookup(
                    with_query(env, params),
                    k2,
                ) == lookup(env, k2) by {
                    reveal_strlit("QUERY_");
                    if k2 == name {
                        assert(has_prefix(k2, "QUERY_"@));
                    }
                    assert(with_query(env, params) == insert_pair(e, name, v));
                    assert(lookup(insert_pair(e, name, v), k2) == lookup(e, k2));
                    assert(lookup(e, k2) == lookup(env, k2));
                }
            },
            None => {},
        }
    }
}

/// Law: a script sees `METHOD` set to the request method and `PATH` to the
/// request path, whatever the request headers or the query say, and every
/// other request header whose name does not begin with `QUERY_` with its
/// value; names stay unique.
pub proof fn law_script_env(headers: Pairs, method: Seq<char>, path: Seq<char>)
    requires
        unique_keys(headers),
    ensures
        unique_keys(script_env(headers, method, path)),
        lookup(script_env(headers, method, path), "METHOD"@) == Some(method),
        lookup(script_env(headers, method, path), "PATH"@) == Some(path),
        forall|k: Seq<char>|
            k != "METHOD"@ && k != "PATH"@ && !has_prefix(k, "QUERY_"@) ==> #[trigger] lookup(
                script_env(headers, method, path),
                k,
            ) == lookup(headers, k),
{
    reveal_strlit("METHOD");
    reveal_strlit("PATH");
    reveal_strlit("QUERY_");
    let e1 = insert_pair(headers, "METHOD"@, method);
    lemma_insert_pair(headers, "METHOD"@, method);
    assert("METHOD"@ != "PATH"@) by {
        assert("METHOD"@.len() != "PATH"@.len());
    }
    let e2 = insert_pair(e1, "PATH"@, path);
    lemma_insert_pair(e1, "PATH"@, path);
    assert(!has_prefix("METHOD"@, "QUERY_"@)) by {
        assert("METHOD"@.take(6)[0] != "QUERY_"@[0]);
    }
    assert(!has_prefix("PATH"@, "QUERY_"@));
    match query_part(path) {
        Some(q) => {
            lemma_with_query(e2, split_all(q, seq!['&']));
        },
        None => {},
    }
}


/// The body is being read exactly when some line read so far was empty.
proof fn lemma_reading_body(ls: Seq<Seq<char>>)
    ensures
        output_state(ls).reading_body <==> exists|j: int| 0 <= j < ls.len() && (#[trigger] ls[j]).len() == 0,
    decreases ls.len(),
{
    if ls.len() > 0 {
        let prev = ls.drop_last();
        lemma_reading_body(prev);
        if exists|j: int| 0 <= j < prev.len() && (#[trigger] prev[j]).len() == 0 {
            let j = choose|j: int| 0 <= j < prev.len() && (#[trigger] prev[j]).len() == 0;
            assert(ls[j] == prev[j]);
        }
        if exists|j: int| 0 <= j < ls.len() && (#[trigger] ls[j]).len() == 0 {
            let j = choose|j: int| 0 <= j < ls.len() && (#[trigger] ls[j]).len() == 0;
            if j < prev.len() {
                assert(prev[j] == ls[j]);
            }
        }
    }
}

/// The headers read from a script's output have unique names.
proof fn lemma_output_unique(ls: Seq<Seq<char>>)
    ensures
        unique_keys(output_state(ls).headers),
    decreases ls.len(),
{
    if ls.len() > 0 {
        lemma_output_unique(ls.drop_last());
        let st = output_state(ls.drop_last());
        let l = ls.last();
        if !st.reading_body && l.len() > 0 {
            match split_once(l, seq![':']) {
                Some((k, v)) => lemma_insert_pair(st.headers, trim(k), trim(v)),
                None => {},
            }
        }
    }
}

/// Law: a line of a script's output read before any empty line, whose first
/// `:` is at position `i`, sets the header named by the trimmed text before
/// that colon to the trimmed text after it: all of it, later colons
/// included (`K: a:b` sets `K` to `a:b`).  The names read stay unique.
pub proof fn law_script_header_line(ls: Seq<Seq<char>>, i: int)
    requires
        ls.len() > 0,
        forall|j: int| 0 <= j < ls.len() ==> (#[trigger] ls[j]).len() > 0,
        0 <= i < ls.last().len(),
        ls.last()[i] == ':',
        forall|j: int| 0 <= j < i ==> ls.last()[j] != ':',
    ensures
        unique_keys(output_state(ls).headers),
        lookup(output_state(ls).headers, trim(ls.last().take(i))) == Some(trim(ls.last().skip(i + 1))),
{
    let l = ls.last();
    let prev = ls.drop_last();
    lemma_reading_body(prev);
    lemma_output_unique(prev);
    lemma_output_unique(ls);
    assert(!output_state(prev).reading_body) by {
        if exists|j: int| 0 <= j < prev.len() && (#[trigger] prev[j]).len() == 0 {
            let j = choose|j: int| 0 <= j < prev.len() && (#[trigger] prev[j]).len() == 0;
            assert(prev[j] == ls[j]);
        }
    }
    let colon = seq![':'];
    assert(l.subrange(i, i + 1) =~= colon);
    assert forall|j: int| 0 <= j < i implies !occurs_at(l, colon, j) by {
        if occurs_at(l, colon, j) {
            assert(l.subrange(j, j + 1)[0] == l[j]);
        }
    }
    lemma_first_occurrence(l, colon, i);
    assert(split_once(l, colon) == Some((l.take(i), l.skip(i + 1))));
    lemma_insert_pair(output_state(prev).headers, trim(l.take(i)), trim(l.skip(i + 1)));
}

} // verus!
