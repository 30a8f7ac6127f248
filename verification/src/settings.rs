//! What the programs are started with: ports, names, and what the client is
//! asked to do.

use vstd::prelude::*;
use vstd::slice::slice_to_vec;
use vstd::string::StringExecFns;
use vstd::utf8::{
    decode_utf8, encode_utf8, encode_utf8_decode_utf8, encode_utf8_valid_utf8, valid_utf8,
};

use crate::message::texts;
use crate::relay::{all_lack, lacks, lemma_cut_first, lemma_joined_injective};
use crate::text::{
    characters, decimal, digit, joined, push_decimal, push_digit, string_from_utf8_lossy,
    utf8_lossy,
};
use crate::text_laws::{
    decimal_is_spelled, decimal_lacks, decimals_differ, digit_table, joined_ends, joined_is_split,
    split,
};

verus! {

/// The names that the server's certificate is for.
pub open spec fn certificate_names(host_ip: Seq<char>) -> Seq<Seq<char>> {
    if host_ip == "127.0.0.1"@ {
        seq!["localhost"@, "127.0.0.1"@, "::1"@]
    } else {
        seq!["localhost"@, "127.0.0.1"@, "::1"@, host_ip]
    }
}

/// The names that the server's certificate is for: those of the local host, and
/// the address of the server if that is another.
pub fn subject_alt_names(host_ip: &String) -> (names: Vec<String>)
    ensures
        texts(names@) == certificate_names(host_ip@),
{
    let mut names: Vec<String> = Vec::new();
    names.push("localhost".to_owned());
    names.push("127.0.0.1".to_owned());
    names.push("::1".to_owned());
    if *host_ip != "127.0.0.1".to_owned() {
        names.push(host_ip.clone());
    }
    assert(texts(names@) =~= certificate_names(host_ip@));
    names
}

/// The two hexadecimal digits of a byte.
pub open spec fn hex_byte(b: u8) -> Seq<char> {
    seq![digit(b as nat / 16), digit(b as nat % 16)]
}

/// The fingerprint of a certificate: its hash in hexadecimal, with colons.
pub open spec fn fingerprint_text(hash: Seq<u8>) -> Seq<char> {
    joined(Seq::new(hash.len(), |i: int| hex_byte(hash[i])), ":"@)
}

/// The fingerprint of a certificate.
pub fn fingerprint(hash: &[u8]) -> (s: String)
    ensures
        s@ == fingerprint_text(hash@),
{
    let ghost parts = Seq::new(hash@.len(), |i: int| hex_byte(hash@[i]));
    let mut s = String::new();
    let mut i: usize = 0;
    assert(joined(parts.take(0), ":"@) =~= Seq::empty());
    while i < hash.len()
        invariant
            i <= hash.len(),
            parts == Seq::new(hash@.len(), |i: int| hex_byte(hash@[i])),
            s@ == joined(parts.take(i as int), ":"@),
        decreases hash.len() - i,
    {
        proof {
            assert(parts.take(i + 1).drop_last() =~= parts.take(i as int));
        }
        if i > 0 {
            s.append(":");
        }
        push_digit(&mut s, hash[i] / 16);
        push_digit(&mut s, hash[i] % 16);
        assert(s@ =~= joined(parts.take(i + 1), ":"@));
        i = i + 1;
    }
    assert(parts.take(hash@.len() as int) =~= parts);
    s
}

/// The number that decimal digits spell.
pub open spec fn decimal_value(s: Seq<char>) -> nat
    decreases s.len(),
{
    if s.len() == 0 {
        0
    } else {
        decimal_value(s.drop_last()) * 10 + (s.last() as nat - '0' as nat) as nat
    }
}

/// The number of 16 bits that decimal digits spell, if they do.
pub open spec fn digits_value(digits: Seq<char>) -> Option<u16> {
    if digits.len() > 0 && (forall|i: int| 0 <= i < digits.len() ==> '0' <= #[trigger] digits[i]
        <= '9') && decimal_value(digits) <= u16::MAX {
        Some(decimal_value(digits) as u16)
    } else {
        None
    }
}

/// The port that a text spells: digits, with or without a plus sign in front.
pub open spec fn port_value(text: Seq<char>) -> Option<u16> {
    if text.len() > 0 && text[0] == '+' {
        digits_value(text.skip(1))
    } else {
        digits_value(text)
    }
}

/// Fewer digits spell no larger number.
proof fn lemma_decimal_value_grows(s: Seq<char>, n: int)
    requires
        0 <= n <= s.len(),
    ensures
        decimal_value(s.take(n)) <= decimal_value(s),
    decreases s.len(),
{
    if n < s.len() {
        lemma_decimal_value_grows(s.drop_last(), n);
        assert(s.drop_last().take(n) =~= s.take(n));
    } else {
        assert(s.take(n) =~= s);
    }
}

/// The port that a text spells.
pub fn parse_port(text: &str) -> (r: Option<u16>)
    ensures
        r == port_value(text@),
{
    let v = characters(text);
    let start: usize = if v.len() > 0 && v[0] == '+' { 1 } else { 0 };
    let ghost digits = v@.skip(start as int);
    assert(v@.skip(0) =~= v@);
    if start == v.len() {
        return None;
    }
    let mut value: u32 = 0;
    let mut i = start;
    assert(digits.take(0) =~= Seq::empty());
    while i < v.len()
        invariant
            start <= i <= v@.len(),
            start <= 1,
            digits == v@.skip(start as int),
            digits.len() > 0,
            port_value(text@) == digits_value(digits),
            forall|j: int| 0 <= j < i - start ==> '0' <= #[trigger] digits[j] <= '9',
            value == decimal_value(digits.take(i - start)),
            value <= u16::MAX,
        decreases v@.len() - i,
    {
        let c = v[i];
        assert(c == digits[i - start]);
        if !('0' <= c && c <= '9') {
            return None;
        }
        proof {
            let n = i - start + 1;
            assert(digits.take(n).drop_last() =~= digits.take(n - 1));
            lemma_decimal_value_grows(digits, n);
        }
        value = value * 10 + (c as u32 - '0' as u32);
        if value > u16::MAX as u32 {
            return None;
        }
        i = i + 1;
    }
    assert(digits.take(digits.len() as int) =~= digits);
    Some(value as u16)
}

/// The port that a setting gives, or the default where it gives none.
pub fn port_or(setting: Option<&str>, default: u16) -> (port: u16)
    ensures
        port == match setting {
            Some(text) => match port_value(text@) {
                Some(p) => p,
                None => default,
            },
            None => default,
        },
{
    match setting {
        Some(text) => match parse_port(text) {
            Some(p) => p,
            None => default,
        },
        None => default,
    }
}

/// What the client does.
#[derive(Debug, Clone, Copy, PartialEq, Eq)]
pub enum Mode {
    Publish,
    Subscribe,
    VideoPublish,
    VideoSubscribe,
    Help,
}

/// What the client does when it is called with this argument.
pub open spec fn mode_for(argument: Option<Seq<char>>) -> Mode {
    if argument == Some("publish"@) {
        Mode::Publish
    } else if argument == Some("subscribe"@) {
        Mode::Subscribe
    } else if argument == Some("video-publish"@) {
        Mode::VideoPublish
    } else if argument == Some("video-subscribe"@) {
        Mode::VideoSubscribe
    } else {
        Mode::Help
    }
}

/// What the client does when it is called with this argument.
pub fn client_mode(argument: Option<&String>) -> (mode: Mode)
    ensures
        mode == mode_for(
            match argument {
                Some(text) => Some(text@),
                None => None,
            },
        ),
        mode is Publish <==> (argument matches Some(text) && text@ == "publish"@),
        mode is Subscribe <==> (argument matches Some(text) && text@ == "subscribe"@),
        mode is VideoPublish <==> (argument matches Some(text) && text@ == "video-publish"@),
        mode is VideoSubscribe <==> (argument matches Some(text) && text@ == "video-subscribe"@),
{
    proof {
        reveal_strlit("publish");
        reveal_strlit("subscribe");
        reveal_strlit("video-publish");
        reveal_strlit("video-subscribe");
        assert("publish"@.len() == 7 && "subscribe"@.len() == 9);
        assert("video-publish"@.len() == 13 && "video-subscribe"@.len() == 15);
    }
    match argument {
        None => Mode::Help,
        Some(text) => if *text == "publish".to_owned() {
            Mode::Publish
        } else if *text == "subscribe".to_owned() {
            Mode::Subscribe
        } else if *text == "video-publish".to_owned() {
            Mode::VideoPublish
        } else if *text == "video-subscribe".to_owned() {
            Mode::VideoSubscribe
        } else {
            Mode::Help
        },
    }
}

/// What is sent of a line of input: its bytes, or nothing if it is empty.
pub fn line_payload(line: &str) -> (payload: Option<Vec<u8>>)
    ensures
        line@.len() == 0 ==> payload is None,
        line@.len() > 0 ==> (payload matches Some(bytes) && bytes@ == encode_utf8(line@)),
{
    if line.is_empty() {
        return None;
    }
    Some(slice_to_vec(line.as_bytes()))
}

/// How a received object is shown, its payload read as this text.
pub open spec fn object_text(group_id: u64, object_id: u64, text: Seq<char>) -> Seq<char> {
    "[group="@ + decimal(group_id as nat) + " id="@ + decimal(object_id as nat) + "] "@ + text
}

/// How a received object is shown, its payload read as this text.
pub fn show_object(group_id: u64, object_id: u64, text: &str) -> (s: String)
    ensures
        s@ == object_text(group_id, object_id, text@),
{
    let mut s = "[group=".to_owned();
    push_decimal(&mut s, group_id);
    s.append(" id=");
    push_decimal(&mut s, object_id);
    s.append("] ");
    s.append(text);
    s
}

/// How a received object with this payload is shown.
pub fn object_line(group_id: u64, object_id: u64, payload: &[u8]) -> (s: String)
    ensures
        s@ == object_text(group_id, object_id, utf8_lossy(payload@)),
        valid_utf8(payload@) ==> s@ == object_text(group_id, object_id, decode_utf8(payload@)),
{
    show_object(group_id, object_id, string_from_utf8_lossy(payload).as_str())
}

/// The certificate is for the three names of the local host and for the address of
/// the server, and for nothing else.
pub proof fn certificate_is_for_these_names(host_ip: Seq<char>, name: Seq<char>)
    ensures
        certificate_names(host_ip).contains(name) <==> name == "localhost"@ || name
            == "127.0.0.1"@ || name == "::1"@ || name == host_ip,
        certificate_names(host_ip)[0] == "localhost"@,
        certificate_names(host_ip)[1] == "127.0.0.1"@,
        certificate_names(host_ip)[2] == "::1"@,
        host_ip == "127.0.0.1"@ ==> certificate_names(host_ip).len() == 3,
        host_ip != "127.0.0.1"@ ==> certificate_names(host_ip).len() == 4,
{
    let names = certificate_names(host_ip);
    assert(names[0] == "localhost"@);
    assert(names[1] == "127.0.0.1"@);
    assert(names[2] == "::1"@);
    if host_ip != "127.0.0.1"@ {
        assert(names[3] == host_ip);
    }
}

/// The hexadecimal digits of bytes hold no other character than digits and the first
/// six letters.
proof fn lemma_hex_parts(hash: Seq<u8>)
    ensures
        all_lack(Seq::new(hash.len(), |i: int| hex_byte(hash[i])), ':'),
{
    let parts = Seq::new(hash.len(), |i: int| hex_byte(hash[i]));
    assert forall|i: int| 0 <= i < parts.len() implies lacks(#[trigger] parts[i], ':') by {
        digit_table(hash[i] as nat / 16);
        digit_table(hash[i] as nat % 16);
        reveal_strlit("0123456789abcdef");
    }
}

/// A fingerprint holds every byte of the hash, in order: taken apart at its colons,
/// it gives as many pairs of hexadecimal digits, each the higher and the lower of its
/// byte.
pub proof fn fingerprint_holds_the_hash(hash: Seq<u8>, i: int)
    requires
        0 <= i < hash.len(),
    ensures
        ({
            let pairs = split(fingerprint_text(hash), ':');
            &&& pairs.len() == hash.len()
            &&& pairs[i].len() == 2
            &&& pairs[i][0] == "0123456789abcdef"@[hash[i] as int / 16]
            &&& pairs[i][1] == "0123456789abcdef"@[hash[i] as int % 16]
        }),
{
    reveal_strlit(":");
    assert(":"@ =~= seq![':']);
    let parts = Seq::new(hash.len(), |i: int| hex_byte(hash[i]));
    lemma_hex_parts(hash);
    joined_is_split(parts, ':');
    digit_table(hash[i] as nat / 16);
    digit_table(hash[i] as nat % 16);
}

/// Different hashes have different fingerprints.
pub proof fn fingerprints_differ(a: Seq<u8>, b: Seq<u8>)
    requires
        fingerprint_text(a) == fingerprint_text(b),
    ensures
        a == b,
{
    reveal_strlit(":");
    reveal_strlit("0123456789abcdef");
    assert(":"@ =~= seq![':']);
    let parts1 = Seq::new(a.len(), |i: int| hex_byte(a[i]));
    let parts2 = Seq::new(b.len(), |i: int| hex_byte(b[i]));
    lemma_hex_parts(a);
    lemma_hex_parts(b);
    if a.len() > 0 {
        joined_ends(parts1, ":"@);
        assert(parts1[0].len() == 2);
    }
    if b.len() > 0 {
        joined_ends(parts2, ":"@);
        assert(parts2[0].len() == 2);
    }
    lemma_joined_injective(parts1, parts2, ':');
    assert(parts1.len() == a.len() && parts2.len() == b.len());
    assert forall|i: int| 0 <= i < a.len() implies a[i] == b[i] by {
        assert(parts1[i] == parts2[i]);
        assert(hex_byte(a[i])[0] == hex_byte(b[i])[0]);
        assert(hex_byte(a[i])[1] == hex_byte(b[i])[1]);
    }
    assert(a =~= b);
}

/// Every port is given by its numeral, with or without zeros or a plus sign in front
/// of it, and a larger number gives none.
pub proof fn ports_have_numerals(port: nat, zeros: nat)
    ensures
        port <= 65535 ==> {
            let text = Seq::new(zeros, |i: int| '0') + decimal(port);
            &&& port_value(text) == Some(port as u16)
            &&& port_value(seq!['+'] + text) == Some(port as u16)
        },
        port > 65535 ==> {
            let text = Seq::new(zeros, |i: int| '0') + decimal(port);
            &&& port_value(text) is None
            &&& port_value(seq!['+'] + text) is None
        },
{
    let lead = Seq::new(zeros, |i: int| '0');
    let text = lead + decimal(port);
    decimal_is_spelled(port);
    lemma_leading_zeros(lead, decimal(port));
    assert forall|i: int| 0 <= i < text.len() implies '0' <= #[trigger] text[i] <= '9' by {
        if i >= lead.len() {
            assert(text[i] == decimal(port)[i - lead.len()]);
        }
    }
    assert((seq!['+'] + text).skip(1) =~= text);
    assert('0' <= text[0] <= '9');
}

proof fn lemma_leading_zeros(zeros: Seq<char>, digits: Seq<char>)
    requires
        forall|i: int| 0 <= i < zeros.len() ==> zeros[i] == '0',
    ensures
        decimal_value(zeros + digits) == decimal_value(digits),
    decreases digits.len(), zeros.len(),
{
    let s = zeros + digits;
    if digits.len() > 0 {
        lemma_leading_zeros(zeros, digits.drop_last());
        assert(s.drop_last() =~= zeros + digits.drop_last());
    } else if zeros.len() > 0 {
        lemma_leading_zeros(zeros.drop_last(), digits);
        assert(s.drop_last() =~= zeros.drop_last() + digits);
    }
}

/// A text without digits, or with any other character behind a plus sign in front,
/// gives no port.
pub proof fn other_texts_are_no_ports(text: Seq<char>, i: int)
    requires
        text.len() == 0 || text == seq!['+'] || (0 <= i < text.len() && (text[i] < '0' || text[i]
            > '9') && !(i == 0 && text[0] == '+')),
    ensures
        port_value(text) is None,
{
    if text.len() > 0 && text[0] == '+' {
        let digits = text.skip(1);
        if text != seq!['+'] {
            assert(digits[i - 1] == text[i]);
        }
    } else if text.len() > 0 {
        assert(text[i] < '0' || text[i] > '9');
    }
}

/// A received text is shown whole, behind its numbers in brackets.
pub proof fn text_is_shown_whole(group_id: u64, object_id: u64, text: Seq<char>)
    ensures
        ({
            let line = object_text(group_id, object_id, text);
            let head = line.take(line.len() - text.len());
            let group = decimal(group_id as nat);
            let id = decimal(object_id as nat);
            &&& line.len() == 13 + group.len() + id.len() + text.len()
            &&& line.skip(line.len() - text.len()) == text
            &&& head.take(7) == "[group="@
            &&& head.skip(7).take(group.len() as int) == group
            &&& head.skip(7int + group.len()).take(4) == " id="@
            &&& head.skip(11int + group.len()).take(id.len() as int) == id
            &&& head.skip(11int + group.len() + id.len()) == "] "@
        }),
{
    reveal_strlit("[group=");
    reveal_strlit(" id=");
    reveal_strlit("] ");
    let line = object_text(group_id, object_id, text);
    let head = line.take(line.len() - text.len());
    let group = decimal(group_id as nat);
    let id = decimal(object_id as nat);
    assert(line.skip(line.len() - text.len()) =~= text);
    assert(head.take(7) =~= "[group="@);
    assert(head.skip(7).take(group.len() as int) =~= group);
    assert(head.skip(7int + group.len()).take(4) =~= " id="@);
    assert(head.skip(11int + group.len()).take(id.len() as int) =~= id);
    assert(head.skip(11int + group.len() + id.len()) =~= "] "@);
}

/// Objects that differ in their group, their identifier or their text are shown
/// differently.
pub proof fn objects_are_told_apart(
    group1: u64,
    id1: u64,
    text1: Seq<char>,
    group2: u64,
    id2: u64,
    text2: Seq<char>,
)
    requires
        object_text(group1, id1, text1) == object_text(group2, id2, text2),
    ensures
        group1 == group2,
        id1 == id2,
        text1 == text2,
{
    reveal_strlit("[group=");
    reveal_strlit(" id=");
    reveal_strlit("] ");
    let start = "[group="@;
    let middle = " id="@;
    let end = "] "@;
    let g1 = decimal(group1 as nat);
    let g2 = decimal(group2 as nat);
    let d1 = decimal(id1 as nat);
    let d2 = decimal(id2 as nat);
    let y1 = end.skip(1) + text1;
    let y2 = end.skip(1) + text2;
    let x1 = middle.skip(1) + (d1 + seq![']'] + y1);
    let x2 = middle.skip(1) + (d2 + seq![']'] + y2);
    assert(middle =~= seq![' '] + middle.skip(1));
    assert(end =~= seq![']'] + end.skip(1));
    assert(object_text(group1, id1, text1).skip(7) =~= g1 + seq![' '] + x1);
    assert(object_text(group2, id2, text2).skip(7) =~= g2 + seq![' '] + x2);
    decimal_lacks(group1 as nat, ' ');
    decimal_lacks(group2 as nat, ' ');
    lemma_cut_first(g1, x1, g2, x2, ' ');
    assert(x1.skip(3) =~= d1 + seq![']'] + y1);
    assert(x2.skip(3) =~= d2 + seq![']'] + y2);
    decimal_lacks(id1 as nat, ']');
    decimal_lacks(id2 as nat, ']');
    lemma_cut_first(d1, y1, d2, y2, ']');
    decimals_differ(group1 as nat, group2 as nat);
    decimals_differ(id1 as nat, id2 as nat);
    assert(y1.skip(1) =~= text1);
    assert(y2.skip(1) =~= text2);
}

/// A line of input is read as the same text from the bytes that are sent of it, and so
/// it is shown whole.
pub proof fn lines_are_shown_as_typed(group_id: u64, object_id: u64, line: Seq<char>)
    ensures
        valid_utf8(encode_utf8(line)),
        decode_utf8(encode_utf8(line)) == line,
        line.is_suffix_of(object_text(group_id, object_id, decode_utf8(encode_utf8(line)))),
{
    encode_utf8_valid_utf8(line);
    encode_utf8_decode_utf8(line);
    text_is_shown_whole(group_id, object_id, line);
}

/// Each thing that the client can do is asked for by its name, and by nothing else.
pub proof fn modes_have_names(argument: Option<Seq<char>>)
    ensures
        mode_for(argument) is Publish <==> argument == Some("publish"@),
        mode_for(argument) is Subscribe <==> argument == Some("subscribe"@),
        mode_for(argument) is VideoPublish <==> argument == Some("video-publish"@),
        mode_for(argument) is VideoSubscribe <==> argument == Some("video-subscribe"@),
{
    reveal_strlit("publish");
    reveal_strlit("subscribe");
    reveal_strlit("video-publish");
    reveal_strlit("video-subscribe");
    assert("publish"@.len() == 7 && "subscribe"@.len() == 9);
    assert("video-publish"@.len() == 13 && "video-subscribe"@.len() == 15);
}

} // verus!
