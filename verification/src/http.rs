//! What the server tells browsers about itself: the `/config` resource.

use vstd::prelude::*;
use vstd::string::StringExecFns;
use vstd::utf8::{decode_utf8, encode_utf8, valid_utf8};

use crate::relay::{
    all_lack, lacks, lemma_cut_first, lemma_cut_last, lemma_joined_injective, lemma_joined_lacks,
};
use crate::settings::decimal_value;
use crate::text::{
    characters, decimal, joined, push_decimal, string_from_utf8_lossy, utf8_lossy,
};
use crate::text_laws::{
    decimal_is_spelled, decimal_lacks, decimals_differ, joined_ends, joined_is_split, split,
};

verus! {

/// The numbers of some bytes, in base ten.
pub open spec fn byte_decimals(bytes: Seq<u8>) -> Seq<Seq<char>> {
    Seq::new(bytes.len(), |i: int| decimal(bytes[i] as nat))
}

/// The `/config` resource: the hash of the server's certificate as an array of
/// numbers, the address and the port to connect to.
pub open spec fn config_text(cert_hash: Seq<u8>, host_ip: Seq<char>, quic_port: u16) -> Seq<char> {
    "{\"certHash\":["@ + joined(byte_decimals(cert_hash), ","@) + "],\"hostIp\":\""@ + host_ip
        + "\",\"port\":"@ + decimal(quic_port as nat) + "}"@
}

/// The `/config` resource.
pub fn config_json(cert_hash: &[u8], host_ip: &str, quic_port: u16) -> (s: String)
    ensures
        s@ == config_text(cert_hash@, host_ip@, quic_port),
{
    let ghost parts = byte_decimals(cert_hash@);
    let mut s = "{\"certHash\":[".to_owned();
    let ghost start = s@;
    let mut i: usize = 0;
    assert(joined(parts.take(0), ","@) =~= Seq::empty());
    while i < cert_hash.len()
        invariant
            i <= cert_hash.len(),
            parts == byte_decimals(cert_hash@),
            s@ == start + joined(parts.take(i as int), ","@),
        decreases cert_hash.len() - i,
    {
        proof {
            assert(parts.take(i + 1).drop_last() =~= parts.take(i as int));
        }
        if i > 0 {
            s.append(",");
        }
        push_decimal(&mut s, cert_hash[i] as u64);
        assert(s@ =~= start + joined(parts.take(i + 1), ","@));
        i = i + 1;
    }
    assert(parts.take(cert_hash@.len() as int) =~= parts);
    s.append("],\"hostIp\":\"");
    s.append(host_ip);
    s.append("\",\"port\":");
    push_decimal(&mut s, quic_port as u64);
    s.append("}");
    s
}

/// White space, as Unicode has it.
pub open spec fn white_space(c: char) -> bool {
    ||| '\u{9}' <= c <= '\u{d}'
    ||| c == '\u{20}'
    ||| c == '\u{85}'
    ||| c == '\u{a0}'
    ||| c == '\u{1680}'
    ||| '\u{2000}' <= c <= '\u{200a}'
    ||| c == '\u{2028}'
    ||| c == '\u{2029}'
    ||| c == '\u{202f}'
    ||| c == '\u{205f}'
    ||| c == '\u{3000}'
}

/// These are the code points of white space.
pub proof fn white_space_table(c: char)
    ensures
        white_space(c) <==> ({
            let n = c as int;
            ||| 9 <= n <= 13
            ||| n == 32 || n == 133 || n == 160 || n == 5760
            ||| 8192 <= n <= 8202
            ||| n == 8232 || n == 8233 || n == 8239 || n == 8287 || n == 12288
        }),
{
}

/// Whether a character is white space.
pub fn is_white_space(c: char) -> (b: bool)
    ensures
        b == white_space(c),
{
    ('\u{9}' <= c && c <= '\u{d}') || c == '\u{20}' || c == '\u{85}' || c == '\u{a0}' || c
        == '\u{1680}' || ('\u{2000}' <= c && c <= '\u{200a}') || c == '\u{2028}' || c == '\u{2029}'
        || c == '\u{202f}' || c == '\u{205f}' || c == '\u{3000}'
}

/// The text before the first line feed.
pub open spec fn first_line(text: Seq<char>) -> Seq<char>
    decreases text.len(),
{
    if text.len() == 0 || text[0] == '\n' {
        Seq::empty()
    } else {
        seq![text[0]] + first_line(text.drop_first())
    }
}

/// The text from its first character on that is no white space.
pub open spec fn without_blanks(text: Seq<char>) -> Seq<char>
    decreases text.len(),
{
    if text.len() == 0 || !white_space(text[0]) {
        text
    } else {
        without_blanks(text.drop_first())
    }
}

/// The text before its first white space.
pub open spec fn first_word(text: Seq<char>) -> Seq<char>
    decreases text.len(),
{
    if text.len() == 0 || white_space(text[0]) {
        Seq::empty()
    } else {
        seq![text[0]] + first_word(text.drop_first())
    }
}

/// The second of the words that white space separates in a text, which is empty
/// if there are fewer.
pub open spec fn second_word(text: Seq<char>) -> Seq<char> {
    let trimmed = without_blanks(text);
    first_word(without_blanks(trimmed.skip(first_word(trimmed).len() as int)))
}

/// What a request asks for: the second word of its first line, or the root.
pub open spec fn requested_path(request: Seq<char>) -> Seq<char> {
    let word = second_word(first_line(request));
    if word.len() == 0 {
        "/"@
    } else {
        word
    }
}

/// Where the first line of a text ends.
fn line_end(v: &Vec<char>) -> (n: usize)
    ensures
        n <= v@.len(),
        first_line(v@) == v@.take(n as int),
{
    let mut n: usize = 0;
    assert(v@.skip(0) =~= v@);
    while n < v.len() && v[n] != '\n'
        invariant
            n <= v@.len(),
            first_line(v@) == v@.take(n as int) + first_line(v@.skip(n as int)),
        decreases v@.len() - n,
    {
        proof {
            assert(v@.skip(n as int).drop_first() =~= v@.skip(n + 1));
            assert(v@.take(n + 1) =~= v@.take(n as int) + seq![v@[n as int]]);
        }
        n = n + 1;
        assert(first_line(v@) =~= v@.take(n as int) + first_line(v@.skip(n as int)));
    }
    assert(first_line(v@) =~= v@.take(n as int));
    n
}

/// Where the white space at `from` ends.
fn blanks_end(v: &Vec<char>, from: usize, end: usize) -> (n: usize)
    requires
        from <= end <= v@.len(),
    ensures
        from <= n <= end,
        without_blanks(v@.subrange(from as int, end as int)) == v@.subrange(n as int, end as int),
{
    let mut n = from;
    while n < end && is_white_space(v[n])
        invariant
            from <= n <= end <= v@.len(),
            without_blanks(v@.subrange(from as int, end as int)) == without_blanks(
                v@.subrange(n as int, end as int),
            ),
        decreases end - n,
    {
        assert(v@.subrange(n as int, end as int).drop_first() =~= v@.subrange(n + 1, end as int));
        n = n + 1;
    }
    n
}

/// Where the word at `from` ends.
fn word_end(v: &Vec<char>, from: usize, end: usize) -> (n: usize)
    requires
        from <= end <= v@.len(),
    ensures
        from <= n <= end,
        first_word(v@.subrange(from as int, end as int)) == v@.subrange(from as int, n as int),
{
    let mut n = from;
    while n < end && !is_white_space(v[n])
        invariant
            from <= n <= end <= v@.len(),
            first_word(v@.subrange(from as int, end as int)) == v@.subrange(from as int, n as int)
                + first_word(v@.subrange(n as int, end as int)),
        decreases end - n,
    {
        proof {
            assert(v@.subrange(n as int, end as int).drop_first() =~= v@.subrange(
                n + 1,
                end as int,
            ));
            assert(v@.subrange(from as int, n + 1) =~= v@.subrange(from as int, n as int)
                + seq![v@[n as int]]);
        }
        n = n + 1;
        assert(first_word(v@.subrange(from as int, end as int)) =~= v@.subrange(
            from as int,
            n as int,
        ) + first_word(v@.subrange(n as int, end as int)));
    }
    assert(first_word(v@.subrange(from as int, end as int)) =~= v@.subrange(from as int, n as int));
    n
}

/// What a request asks for.
pub fn request_path(request: &str) -> (path: String)
    ensures
        path@ == requested_path(request@),
{
    let v = characters(request);
    let end = line_end(&v);
    let a = blanks_end(&v, 0, end);
    let b = word_end(&v, a, end);
    let c = blanks_end(&v, b, end);
    let d = word_end(&v, c, end);
    proof {
        let line = v@.take(end as int);
        assert(v@.subrange(0, end as int) =~= line);
        assert(v@.subrange(a as int, end as int).skip(b - a) =~= v@.subrange(b as int, end as int));
        assert(second_word(line) == v@.subrange(c as int, d as int));
    }
    if c == d {
        return "/".to_owned();
    }
    let mut path = String::new();
    let mut i = c;
    while i < d
        invariant
            c <= i <= d <= v@.len(),
            path@ == v@.subrange(c as int, i as int),
        decreases d - i,
    {
        path.push(v[i]);
        i = i + 1;
        assert(path@ =~= v@.subrange(c as int, i as int));
    }
    path
}

/// The response to a request: the `/config` resource, or that there is no other.
pub open spec fn response_text(request: Seq<char>, config_json: Seq<char>) -> Seq<char> {
    if requested_path(request) == "/config"@ {
        "HTTP/1.1 200 OK\r\nContent-Type: application/json\r\nAccess-Control-Allow-Origin: *\r\nContent-Length: "@
            + decimal(encode_utf8(config_json).len()) + "\r\nConnection: close\r\n\r\n"@
            + config_json
    } else {
        "HTTP/1.1 404 Not Found\r\nContent-Type: text/plain\r\nContent-Length: "@ + decimal(
            encode_utf8("404 Not Found"@).len(),
        ) + "\r\nConnection: close\r\n\r\n"@ + "404 Not Found"@
    }
}

/// A header that lacks its length, the length of a body, the body.
fn with_body(header: &str, body: &str) -> (s: String)
    ensures
        s@ == header@ + decimal(encode_utf8(body@).len()) + "\r\nConnection: close\r\n\r\n"@
            + body@,
{
    let mut s = header.to_owned();
    push_decimal(&mut s, body.as_bytes().len() as u64);
    s.append("\r\nConnection: close\r\n\r\n");
    s.append(body);
    s
}

/// The response to a request that was read as this text.
pub fn respond(request: &str, config_json: &str) -> (s: String)
    ensures
        s@ == response_text(request@, config_json@),
{
    let path = request_path(request);
    if path == "/config".to_owned() {
        with_body(
            "HTTP/1.1 200 OK\r\nContent-Type: application/json\r\nAccess-Control-Allow-Origin: *\r\nContent-Length: ",
            config_json,
        )
    } else {
        with_body(
            "HTTP/1.1 404 Not Found\r\nContent-Type: text/plain\r\nContent-Length: ",
            "404 Not Found",
        )
    }
}

/// The response to a request of these bytes.
pub fn http_response(request: &[u8], config_json: &str) -> (s: String)
    ensures
        s@ == response_text(utf8_lossy(request@), config_json@),
        valid_utf8(request@) ==> s@ == response_text(decode_utf8(request@), config_json@),
{
    respond(string_from_utf8_lossy(request).as_str(), config_json)
}

/// The numerals of bytes hold nothing but digits.
proof fn lemma_byte_decimals(bytes: Seq<u8>, c: char)
    requires
        c < '0' || c > '9',
    ensures
        all_lack(byte_decimals(bytes), c),
{
    assert forall|i: int| 0 <= i < bytes.len() implies lacks(
        #[trigger] byte_decimals(bytes)[i],
        c,
    ) by {
        decimal_lacks(bytes[i] as nat, c);
    }
}

/// The array of the `/config` resource holds every byte of the hash, in order: taken
/// apart at its commas, it gives as many numerals, and each spells its byte. The
/// address and the port follow whole.
pub proof fn config_holds_the_hash(cert_hash: Seq<u8>, host_ip: Seq<char>, quic_port: u16)
    ensures
        exists|list: Seq<char>|
            {
                &&& #[trigger] lacks(list, ']')
                &&& config_text(cert_hash, host_ip, quic_port) == "{\"certHash\":["@ + list
                    + "],\"hostIp\":\""@ + host_ip + "\",\"port\":"@ + decimal(quic_port as nat)
                    + "}"@
                &&& cert_hash.len() == 0 ==> list.len() == 0
                &&& cert_hash.len() > 0 ==> split(list, ',').len() == cert_hash.len()
                &&& forall|i: int|
                    0 <= i < cert_hash.len() ==> decimal_value(#[trigger] split(list, ',')[i])
                        == cert_hash[i]
            },
{
    reveal_strlit(",");
    assert(","@ =~= seq![',']);
    let parts = byte_decimals(cert_hash);
    let list = joined(parts, ","@);
    lemma_byte_decimals(cert_hash, ']');
    lemma_byte_decimals(cert_hash, ',');
    lemma_joined_lacks(parts, ","@, ']');
    if cert_hash.len() > 0 {
        joined_is_split(parts, ',');
        assert forall|i: int| 0 <= i < cert_hash.len() implies decimal_value(
            #[trigger] split(list, ',')[i],
        ) == cert_hash[i] by {
            decimal_is_spelled(cert_hash[i] as nat);
        }
    }
    assert(lacks(list, ']'));
}

/// Servers that differ in their hash, their address or their port serve different
/// `/config` resources.
pub proof fn configs_differ(
    hash1: Seq<u8>,
    ip1: Seq<char>,
    port1: u16,
    hash2: Seq<u8>,
    ip2: Seq<char>,
    port2: u16,
)
    requires
        config_text(hash1, ip1, port1) == config_text(hash2, ip2, port2),
    ensures
        hash1 == hash2,
        ip1 == ip2,
        port1 == port2,
{
    reveal_strlit(",");
    reveal_strlit("{\"certHash\":[");
    reveal_strlit("],\"hostIp\":\"");
    reveal_strlit("\",\"port\":");
    reveal_strlit("}");
    assert(","@ =~= seq![',']);
    let start = "{\"certHash\":["@;
    let middle = "],\"hostIp\":\""@;
    let before = "\",\"port\":"@;
    let end = "}"@;
    let parts1 = byte_decimals(hash1);
    let parts2 = byte_decimals(hash2);
    let list1 = joined(parts1, ","@);
    let list2 = joined(parts2, ","@);
    let port_text1 = decimal(port1 as nat);
    let port_text2 = decimal(port2 as nat);
    let x1 = middle.skip(1) + (ip1 + before + port_text1 + end);
    let x2 = middle.skip(1) + (ip2 + before + port_text2 + end);
    let t1 = config_text(hash1, ip1, port1);
    let t2 = config_text(hash2, ip2, port2);
    assert(middle =~= seq![']'] + middle.skip(1));
    assert(t1 =~= start + (list1 + seq![']'] + x1));
    assert(t2 =~= start + (list2 + seq![']'] + x2));
    assert(t1.skip(start.len() as int) =~= list1 + seq![']'] + x1);
    assert(t2.skip(start.len() as int) =~= list2 + seq![']'] + x2);
    lemma_byte_decimals(hash1, ']');
    lemma_byte_decimals(hash2, ']');
    lemma_byte_decimals(hash1, ',');
    lemma_byte_decimals(hash2, ',');
    lemma_joined_lacks(parts1, ","@, ']');
    lemma_joined_lacks(parts2, ","@, ']');
    lemma_cut_first(list1, x1, list2, x2, ']');
    let y1 = ip1 + before.drop_last();
    let y2 = ip2 + before.drop_last();
    assert(before =~= before.drop_last() + seq![':']);
    assert(x1.skip(middle.len() - 1).drop_last() =~= y1 + seq![':'] + port_text1);
    assert(x2.skip(middle.len() - 1).drop_last() =~= y2 + seq![':'] + port_text2);
    decimal_lacks(port1 as nat, ':');
    decimal_lacks(port2 as nat, ':');
    lemma_cut_last(y1, port_text1, y2, port_text2, ':');
    decimals_differ(port1 as nat, port2 as nat);
    assert(ip1 =~= y1.take(y1.len() - before.len() + 1));
    assert(ip2 =~= y2.take(y2.len() - before.len() + 1));
    lemma_list_is_empty(hash1);
    lemma_list_is_empty(hash2);
    lemma_joined_injective(parts1, parts2, ',');
    assert forall|i: int| 0 <= i < hash1.len() implies hash1[i] == hash2[i] by {
        assert(parts1[i] == parts2[i]);
        decimals_differ(hash1[i] as nat, hash2[i] as nat);
    }
    assert(parts1.len() == hash1.len());
    assert(parts2.len() == hash2.len());
    assert(hash1 =~= hash2);
}

/// Only the list of no byte is empty.
proof fn lemma_list_is_empty(bytes: Seq<u8>)
    ensures
        joined(byte_decimals(bytes), ","@).len() == 0 <==> bytes.len() == 0,
{
    if bytes.len() > 0 {
        joined_ends(byte_decimals(bytes), ","@);
        decimal_is_spelled(bytes[0] as nat);
    }
}

/// The path of a request is the second word of its first line: it is found behind
/// the first word, however much white space surrounds the two, and whatever follows.
pub proof fn path_is_second_word(
    before: Seq<char>,
    method: Seq<char>,
    gap: Seq<char>,
    path: Seq<char>,
    after: Seq<char>,
)
    requires
        blank(before) && lacks(before, '\n'),
        word(method),
        gap.len() > 0 && blank(gap) && lacks(gap, '\n'),
        word(path),
        after.len() == 0 || white_space(after[0]),
    ensures
        requested_path(before + method + gap + path + after) == path,
{
    let text = before + method + gap + path + after;
    let front = before + method + gap + path;
    let tail = first_line(after);
    assert(lacks(front, '\n')) by {
        assert forall|i: int| 0 <= i < front.len() implies front[i] != '\n' by {
            if i < before.len() {
                assert(front[i] == before[i]);
            } else if i < before.len() + method.len() {
                assert(front[i] == method[i - before.len()]);
            } else if i < before.len() + method.len() + gap.len() {
                assert(front[i] == gap[i - before.len() - method.len()]);
            } else {
                assert(front[i] == path[i - before.len() - method.len() - gap.len()]);
            }
        }
    }
    assert(text =~= front + after);
    lemma_first_line(front, after);
    let line = front + tail;
    let t3 = path + tail;
    let t2 = gap + t3;
    let t1 = method + t2;
    assert(line =~= before + t1);
    lemma_blanks_skipped(before, t1);
    lemma_word_first(method, t2);
    assert(t1.skip(method.len() as int) =~= t2);
    lemma_blanks_skipped(gap, t3);
    lemma_word_first(path, tail);
}

/// Nothing but white space.
pub open spec fn blank(text: Seq<char>) -> bool {
    forall|i: int| 0 <= i < text.len() ==> white_space(#[trigger] text[i])
}

/// Something, and no white space in it.
pub open spec fn word(text: Seq<char>) -> bool {
    &&& text.len() > 0
    &&& forall|i: int| 0 <= i < text.len() ==> !white_space(#[trigger] text[i])
}

/// What follows the first line of a request does not matter.
pub proof fn only_the_first_line_matters(line: Seq<char>, rest: Seq<char>)
    requires
        lacks(line, '\n'),
    ensures
        requested_path(line + seq!['\n'] + rest) == requested_path(line),
{
    let tail = seq!['\n'] + rest;
    assert(line + seq!['\n'] + rest =~= line + tail);
    lemma_first_line(line, tail);
    lemma_first_line(line, Seq::empty());
    assert(line + Seq::<char>::empty() =~= line);
}

/// A request whose first line has no second word asks for the root.
pub proof fn no_second_word_is_the_root(before: Seq<char>, method: Seq<char>, after: Seq<char>)
    requires
        blank(before) && lacks(before, '\n'),
        method.len() == 0 || word(method),
        blank(after) && lacks(after, '\n'),
    ensures
        requested_path(before + method + after) == seq!['/'],
{
    reveal_strlit("/");
    assert("/"@ =~= seq!['/']);
    let nil = Seq::<char>::empty();
    let text = before + method + after;
    assert(lacks(text, '\n')) by {
        assert forall|i: int| 0 <= i < text.len() implies text[i] != '\n' by {
            if i < before.len() {
                assert(text[i] == before[i]);
            } else if i < before.len() + method.len() {
                assert(text[i] == method[i - before.len()]);
            } else {
                assert(text[i] == after[i - before.len() - method.len()]);
            }
        }
    }
    assert(text + nil =~= text);
    lemma_first_line(text, nil);
    let t1 = method + after;
    assert(text =~= before + t1);
    if method.len() > 0 {
        lemma_blanks_skipped(before, t1);
        lemma_word_first(method, after);
        assert(t1.skip(method.len() as int) =~= after);
    } else {
        assert forall|i: int| 0 <= i < text.len() implies white_space(#[trigger] text[i]) by {
            if i < before.len() {
                assert(text[i] == before[i]);
            } else {
                assert(text[i] == after[i - before.len()]);
            }
        }
        lemma_all_blank(text);
        assert(nil.skip(0) =~= nil);
    }
    lemma_all_blank(after);
}

proof fn lemma_first_line(line: Seq<char>, tail: Seq<char>)
    requires
        lacks(line, '\n'),
    ensures
        first_line(line + tail) == line + first_line(tail),
    decreases line.len(),
{
    if line.len() == 0 {
        assert(line + tail =~= tail);
        assert(line + first_line(tail) =~= first_line(tail));
    } else {
        lemma_first_line(line.drop_first(), tail);
        assert((line + tail).drop_first() =~= line.drop_first() + tail);
        assert(first_line(line + tail) =~= line + first_line(tail));
    }
}

proof fn lemma_blanks_skipped(blanks: Seq<char>, rest: Seq<char>)
    requires
        blank(blanks),
        rest.len() > 0 && !white_space(rest[0]),
    ensures
        without_blanks(blanks + rest) == rest,
    decreases blanks.len(),
{
    if blanks.len() == 0 {
        assert(blanks + rest =~= rest);
    } else {
        assert(white_space(blanks[0]));
        assert((blanks + rest).drop_first() =~= blanks.drop_first() + rest);
        assert forall|i: int| 0 <= i < blanks.drop_first().len() implies white_space(
            #[trigger] blanks.drop_first()[i],
        ) by {
            assert(white_space(blanks[i + 1]));
        }
        lemma_blanks_skipped(blanks.drop_first(), rest);
    }
}

proof fn lemma_all_blank(text: Seq<char>)
    requires
        blank(text),
    ensures
        without_blanks(text).len() == 0,
    decreases text.len(),
{
    if text.len() > 0 {
        assert(white_space(text[0]));
        assert forall|i: int| 0 <= i < text.drop_first().len() implies white_space(
            #[trigger] text.drop_first()[i],
        ) by {
            assert(white_space(text[i + 1]));
        }
        lemma_all_blank(text.drop_first());
    }
}

proof fn lemma_word_first(w: Seq<char>, rest: Seq<char>)
    requires
        forall|i: int| 0 <= i < w.len() ==> !white_space(#[trigger] w[i]),
        rest.len() == 0 || white_space(rest[0]),
    ensures
        first_word(w + rest) == w,
    decreases w.len(),
{
    if w.len() == 0 {
        assert(w + rest =~= rest);
        assert(w =~= Seq::empty());
    } else {
        assert(!white_space(w[0]));
        assert((w + rest).drop_first() =~= w.drop_first() + rest);
        assert forall|i: int| 0 <= i < w.drop_first().len() implies !white_space(
            #[trigger] w.drop_first()[i],
        ) by {
            assert(!white_space(w[i + 1]));
        }
        lemma_word_first(w.drop_first(), rest);
        assert(first_word(w + rest) =~= w);
    }
}

/// A response is a status and a kind of content, the number of bytes of its body, and
/// its body, whole: the configuration if that is what the request asks for, and
/// else that it was not found.
pub proof fn response_layout(request: Seq<char>, config_json: Seq<char>)
    ensures
        ({
            let r = response_text(request, config_json);
            let found = requested_path(request) == "/config"@;
            let body = if found {
                config_json
            } else {
                "404 Not Found"@
            };
            let start = if found {
                "HTTP/1.1 200 OK\r\nContent-Type: application/json\r\nAccess-Control-Allow-Origin: *\r\nContent-Length: "@
            } else {
                "HTTP/1.1 404 Not Found\r\nContent-Type: text/plain\r\nContent-Length: "@
            };
            let length = decimal(encode_utf8(body).len());
            let end = "\r\nConnection: close\r\n\r\n"@;
            &&& r.len() == start.len() + length.len() + end.len() + body.len()
            &&& r.take(start.len() as int) == start
            &&& r.skip(start.len() as int).take(length.len() as int) == length
            &&& r.skip((start.len() + length.len()) as int).take(end.len() as int) == end
            &&& r.skip(r.len() - body.len()) == body
        }),
{
    let r = response_text(request, config_json);
    let found = requested_path(request) == "/config"@;
    let body = if found {
        config_json
    } else {
        "404 Not Found"@
    };
    let start = if found {
        "HTTP/1.1 200 OK\r\nContent-Type: application/json\r\nAccess-Control-Allow-Origin: *\r\nContent-Length: "@
    } else {
        "HTTP/1.1 404 Not Found\r\nContent-Type: text/plain\r\nContent-Length: "@
    };
    let length = decimal(encode_utf8(body).len());
    let end = "\r\nConnection: close\r\n\r\n"@;
    assert(r == start + length + end + body);
    assert(r.take(start.len() as int) =~= start);
    assert(r.skip(start.len() as int).take(length.len() as int) =~= length);
    assert(r.skip((start.len() + length.len()) as int).take(end.len() as int) =~= end);
    assert(r.skip(r.len() - body.len()) =~= body);
}

/// Different configurations are served differently to who asks for them, and alike,
/// not at all, to who asks for anything else.
pub proof fn responses_differ(request: Seq<char>, config1: Seq<char>, config2: Seq<char>)
    ensures
        requested_path(request) == "/config"@ && response_text(request, config1) == response_text(
            request,
            config2,
        ) ==> config1 == config2,
        requested_path(request) != "/config"@ ==> response_text(request, config1)
            == response_text(request, config2),
{
    if requested_path(request) == "/config"@ && response_text(request, config1) == response_text(
        request,
        config2,
    ) {
        let start =
            "HTTP/1.1 200 OK\r\nContent-Type: application/json\r\nAccess-Control-Allow-Origin: *\r\nContent-Length: "@;
        let end = "\r\nConnection: close\r\n\r\n"@;
        reveal_strlit("\r\nConnection: close\r\n\r\n");
        let n1 = decimal(encode_utf8(config1).len());
        let n2 = decimal(encode_utf8(config2).len());
        let x1 = end.skip(1) + config1;
        let x2 = end.skip(1) + config2;
        assert(end =~= seq!['\r'] + end.skip(1));
        assert(response_text(request, config1).skip(start.len() as int) =~= n1 + seq!['\r'] + x1);
        assert(response_text(request, config2).skip(start.len() as int) =~= n2 + seq!['\r'] + x2);
        decimal_lacks(encode_utf8(config1).len(), '\r');
        decimal_lacks(encode_utf8(config2).len(), '\r');
        lemma_cut_first(n1, x1, n2, x2, '\r');
        assert(config1 =~= x1.skip(end.len() - 1));
        assert(config2 =~= x2.skip(end.len() - 1));
    }
}

} // verus!
