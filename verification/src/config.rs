//! The viewer's configuration file: `host=` and `port=` lines.
use vstd::prelude::*;
use crate::text::{push_chars, push_str, push_char};

verus! {

/// A line without its terminating carriage return, if it has one.
pub open spec fn strip_cr(line: Seq<char>) -> Seq<char> {
    if line.len() > 0 && line.last() == '\r' {
        line.drop_last()
    } else {
        line
    }
}

/// Reading `s` from the start: the lines completed by a newline so far (each
/// without its `\r\n` or `\n` ending) and the characters of the unfinished line.
pub open spec fn scan_lines(s: Seq<char>) -> (Seq<Seq<char>>, Seq<char>)
    decreases s.len(),
{
    if s.len() == 0 {
        (Seq::<Seq<char>>::empty(), Seq::<char>::empty())
    } else {
        let (done, cur) = scan_lines(s.drop_last());
        if s.last() == '\n' {
            (done.push(strip_cr(cur)), Seq::<char>::empty())
        } else {
            (done, cur.push(s.last()))
        }
    }
}

/// The lines of `s` as `str::lines` documents them: split at `\n` or `\r\n`,
/// without the terminators; the final line ending is optional.
pub open spec fn spec_lines(s: Seq<char>) -> Seq<Seq<char>> {
    let (done, cur) = scan_lines(s);
    if cur.len() == 0 {
        done
    } else {
        done.push(cur)
    }
}

/// Whether `s` begins with `p`.
pub open spec fn starts_with(s: Seq<char>, p: Seq<char>) -> bool {
    p.len() <= s.len() && s.take(p.len() as int) == p
}

/// The value of the last line that begins with `key` (the rest of that line),
/// or `default` when no line does.
pub open spec fn last_value(lines: Seq<Seq<char>>, key: Seq<char>, default: Seq<char>) -> Seq<
    char,
>
    decreases lines.len(),
{
    if lines.len() == 0 {
        default
    } else if starts_with(lines.last(), key) {
        lines.last().skip(key.len() as int)
    } else {
        last_value(lines.drop_last(), key, default)
    }
}

pub open spec fn host_key() -> Seq<char> {
    seq!['h', 'o', 's', 't', '=']
}

pub open spec fn port_key() -> Seq<char> {
    seq!['p', 'o', 'r', 't', '=']
}

pub open spec fn default_host() -> Seq<char> {
    seq!['1', '2', '7', '.', '0', '.', '0', '.', '1']
}

pub open spec fn default_port() -> Seq<char> {
    seq!['2', '1', '0', '1']
}

/// The host and port that a configuration text sets.
pub open spec fn spec_parse_config(content: Seq<char>) -> (Seq<char>, Seq<char>) {
    let lines = spec_lines(content);
    (last_value(lines, host_key(), default_host()), last_value(lines, port_key(), default_port()))
}

/// The configuration text that records `host` and `port`.
pub open spec fn spec_config_text(host: Seq<char>, port: Seq<char>) -> Seq<char> {
    host_key() + host + seq!['\n'] + port_key() + port + seq!['\n']
}

proof fn lemma_scan_without_newline(x: Seq<char>)
    requires
        !x.contains('\n'),
    ensures
        scan_lines(x) == (Seq::<Seq<char>>::empty(), x),
    decreases x.len(),
{
    if x.len() > 0 {
        assert(!x.drop_last().contains('\n')) by {
            if x.drop_last().contains('\n') {
                let k = choose|k: int| 0 <= k < x.drop_last().len() && x.drop_last()[k] == '\n';
                assert(x[k] == '\n');
            }
        }
        lemma_scan_without_newline(x.drop_last());
        assert(x[x.len() - 1] != '\n');
        assert(x.drop_last().push(x.last()) =~= x);
    }
}

proof fn lemma_scan_append(a: Seq<char>, b: Seq<char>)
    requires
        scan_lines(a).1.len() == 0,
    ensures
        scan_lines(a + b) == (scan_lines(a).0 + scan_lines(b).0, scan_lines(b).1),
    decreases b.len(),
{
    if b.len() == 0 {
        assert(a + b =~= a);
        assert(scan_lines(a).0 + Seq::<Seq<char>>::empty() =~= scan_lines(a).0);
        assert(scan_lines(a).1 =~= Seq::<char>::empty());
    } else {
        lemma_scan_append(a, b.drop_last());
        assert((a + b).drop_last() =~= a + b.drop_last());
        assert((a + b).last() == b.last());
        let (d, c) = scan_lines(b.drop_last());
        assert((scan_lines(a).0 + d).push(strip_cr(c)) =~= scan_lines(a).0 + d.push(strip_cr(c)));
    }
}

proof fn lemma_scan_one_line(x: Seq<char>)
    requires
        !x.contains('\n'),
        !(x.len() > 0 && x.last() == '\r'),
    ensures
        scan_lines(x + seq!['\n']) == (seq![x], Seq::<char>::empty()),
{
    lemma_scan_without_newline(x);
    let s = x + seq!['\n'];
    assert(s.drop_last() =~= x);
    assert(Seq::<Seq<char>>::empty().push(x) =~= seq![x]);
}

proof fn lemma_key_line_no_newline(key: Seq<char>, v: Seq<char>)
    requires
        !key.contains('\n'),
        !v.contains('\n'),
    ensures
        !(key + v).contains('\n'),
{
    if (key + v).contains('\n') {
        let k = choose|k: int| 0 <= k < (key + v).len() && (key + v)[k] == '\n';
        if k < key.len() {
            assert(key[k] == '\n');
        } else {
            assert(v[k - key.len()] == '\n');
        }
    }
}

/// Reading back what was saved gives the saved host and port, for every host
/// and port that hold no newline and do not end in a carriage return.
pub proof fn law_config_round_trip(host: Seq<char>, port: Seq<char>)
    requires
        !host.contains('\n'),
        !port.contains('\n'),
        !(host.len() > 0 && host.last() == '\r'),
        !(port.len() > 0 && port.last() == '\r'),
    ensures
        spec_parse_config(spec_config_text(host, port)) == (host, port),
{
    let l1 = host_key() + host;
    let l2 = port_key() + port;
    assert(!host_key().contains('\n')) by {
        if host_key().contains('\n') {
            let k = choose|k: int| 0 <= k < host_key().len() && host_key()[k] == '\n';
        }
    }
    assert(!port_key().contains('\n')) by {
        if port_key().contains('\n') {
            let k = choose|k: int| 0 <= k < port_key().len() && port_key()[k] == '\n';
        }
    }
    lemma_key_line_no_newline(host_key(), host);
    lemma_key_line_no_newline(port_key(), port);
    assert(!(l1.len() > 0 && l1.last() == '\r')) by {
        if host.len() > 0 {
            assert(l1.last() == host.last());
        } else {
            assert(l1.last() == '=');
        }
    }
    assert(!(l2.len() > 0 && l2.last() == '\r')) by {
        if port.len() > 0 {
            assert(l2.last() == port.last());
        } else {
            assert(l2.last() == '=');
        }
    }
    lemma_scan_one_line(l1);
    lemma_scan_one_line(l2);
    let a = l1 + seq!['\n'];
    let b = l2 + seq!['\n'];
    lemma_scan_append(a, b);
    assert(spec_config_text(host, port) =~= a + b);
    let lines = spec_lines(a + b);
    assert(lines =~= seq![l1, l2]);
    assert(lines.last() == l2);
    assert(lines.drop_last() =~= seq![l1]);
    assert(l1.take(5) =~= host_key());
    assert(l2.take(5) =~= port_key());
    assert(l1.skip(5) =~= host);
    assert(l2.skip(5) =~= port);
    assert(!starts_with(l2, host_key())) by {
        assert(l2.take(5)[0] == 'p');
    }
    assert(!starts_with(l1, port_key())) by {
        assert(l1.take(5)[0] == 'h');
    }
    assert(seq![l1].drop_last() =~= Seq::<Seq<char>>::empty());
    assert(host_key().len() == 5);
    assert(port_key().len() == 5);
    assert(starts_with(l1, host_key()));
    assert(starts_with(l2, port_key()));
    assert(last_value(seq![l1], host_key(), default_host()) == host);
    assert(last_value(lines, host_key(), default_host()) == host);
    assert(last_value(lines, port_key(), default_port()) == port);
    assert(spec_config_text(host, port) == a + b);
}

proof fn lemma_scan_line(x: Seq<char>)
    requires
        !x.contains('\n'),
    ensures
        scan_lines(x + seq!['\n']) == (seq![strip_cr(x)], Seq::<char>::empty()),
{
    lemma_scan_without_newline(x);
    let s = x + seq!['\n'];
    assert(s.drop_last() =~= x);
    assert(Seq::<Seq<char>>::empty().push(strip_cr(x)) =~= seq![strip_cr(x)]);
}

proof fn lemma_last_value_skips(
    la: Seq<Seq<char>>,
    y: Seq<char>,
    lb: Seq<Seq<char>>,
    key: Seq<char>,
    default: Seq<char>,
)
    requires
        !starts_with(y, key),
    ensures
        last_value(la + seq![y] + lb, key, default) == last_value(la + lb, key, default),
    decreases lb.len(),
{
    if lb.len() == 0 {
        assert(la + seq![y] + lb =~= la.push(y));
        assert(la.push(y).drop_last() =~= la);
        assert(la + lb =~= la);
    } else {
        lemma_last_value_skips(la, y, lb.drop_last(), key, default);
        assert((la + seq![y] + lb).drop_last() =~= la + seq![y] + lb.drop_last());
        assert((la + lb).drop_last() =~= la + lb.drop_last());
        assert((la + seq![y] + lb).last() == lb.last());
        assert((la + lb).last() == lb.last());
    }
}

proof fn lemma_strip_cr_keeps_key_free(x: Seq<char>, key: Seq<char>)
    requires
        !starts_with(x, key),
    ensures
        !starts_with(strip_cr(x), key),
{
    if x.len() > 0 && x.last() == '\r' && starts_with(x.drop_last(), key) {
        assert(x.take(key.len() as int) =~= x.drop_last().take(key.len() as int));
    }
}

/// A line that begins with neither `host=` nor `port=` (an empty line too)
/// changes nothing, wherever it is inserted between the lines of a
/// configuration text: every `host=` and `port=` line counts, the last one of
/// each kind wins, and all other lines are ignored.
pub proof fn law_other_lines_ignored(a: Seq<char>, x: Seq<char>, b: Seq<char>)
    requires
        a.len() == 0 || a.last() == '\n',
        !x.contains('\n'),
        !starts_with(x, host_key()),
        !starts_with(x, port_key()),
    ensures
        spec_parse_config(a + x + seq!['\n'] + b) == spec_parse_config(a + b),
{
    let xl = x + seq!['\n'];
    if a.len() > 0 {
        assert(a.drop_last().push(a.last()) =~= a);
    }
    assert(scan_lines(a).1.len() == 0);
    lemma_scan_line(x);
    lemma_scan_append(a, xl);
    let ax = a + xl;
    assert(scan_lines(ax) == (scan_lines(a).0 + seq![strip_cr(x)], Seq::<char>::empty()));
    lemma_scan_append(ax, b);
    lemma_scan_append(a, b);
    assert(a + x + seq!['\n'] + b =~= ax + b);
    let la = scan_lines(a).0;
    let (bd, bc) = scan_lines(b);
    let lb = if bc.len() == 0 {
        bd
    } else {
        bd.push(bc)
    };
    let y = strip_cr(x);
    assert(spec_lines(ax + b) =~= la + seq![y] + lb);
    assert(spec_lines(a + b) =~= la + lb);
    lemma_strip_cr_keeps_key_free(x, host_key());
    lemma_strip_cr_keeps_key_free(x, port_key());
    lemma_last_value_skips(la, y, lb, host_key(), default_host());
    lemma_last_value_skips(la, y, lb, port_key(), default_port());
}

/// The characters of a string slice.
pub fn str_chars(s: &str) -> (v: Vec<char>)
    ensures
        v@ == s@,
{
    broadcast use vstd::string::axiom_spec_iter;

    let mut v: Vec<char> = Vec::new();
    for c in it: s.chars()
        invariant
            v@ == it.seq().take(it.index() as int),
            it.seq() == s@,
    {
        v.push(c);
    }
    v
}

/// The contents of a list of lines.
pub open spec fn line_views(v: Seq<Vec<char>>) -> Seq<Seq<char>> {
    v.map_values(|l: Vec<char>| l@)
}

fn split_lines(chars: &Vec<char>) -> (lines: Vec<Vec<char>>)
    ensures
        line_views(lines@) == spec_lines(chars@),
{
    let mut done: Vec<Vec<char>> = Vec::new();
    let mut cur: Vec<char> = Vec::new();
    let mut i: usize = 0;
    while i < chars.len()
        invariant
            i <= chars.len(),
            (line_views(done@), cur@) == scan_lines(chars@.take(i as int)),
        decreases chars.len() - i,
    {
        let c = chars[i];
        assert(chars@.take(i + 1).drop_last() =~= chars@.take(i as int));
        assert(chars@.take(i + 1).last() == c);
        if c == '\n' {
            let ghost before = cur@;
            if cur.len() > 0 && cur[cur.len() - 1] == '\r' {
                cur.pop();
            }
            assert(cur@ == strip_cr(before));
            let ghost old_done = line_views(done@);
            done.push(cur);
            assert(line_views(done@) =~= old_done.push(strip_cr(before)));
            cur = Vec::new();
        } else {
            cur.push(c);
        }
        i = i + 1;
    }
    assert(chars@.take(chars.len() as int) =~= chars@);
    if cur.len() > 0 {
        let ghost old_done = line_views(done@);
        let ghost last = cur@;
        done.push(cur);
        assert(line_views(done@) =~= old_done.push(last));
    }
    done
}

fn has_prefix(line: &Vec<char>, key: &Vec<char>) -> (r: bool)
    ensures
        r == starts_with(line@, key@),
{
    if key.len() > line.len() {
        return false;
    }
    let mut i: usize = 0;
    while i < key.len()
        invariant
            i <= key.len() <= line.len(),
            forall|j: int| 0 <= j < i ==> line@[j] == key@[j],
        decreases key.len() - i,
    {
        if line[i] != key[i] {
            assert(line@.take(key.len() as int)[i as int] != key@[i as int]);
            return false;
        }
        i = i + 1;
    }
    assert(line@.take(key.len() as int) =~= key@);
    true
}

fn suffix_from(line: &Vec<char>, start: usize) -> (rest: Vec<char>)
    requires
        start <= line.len(),
    ensures
        rest@ == line@.skip(start as int),
{
    let mut rest: Vec<char> = Vec::new();
    let mut i: usize = start;
    while i < line.len()
        invariant
            start <= i <= line.len(),
            rest@ == line@.subrange(start as int, i as int),
        decreases line.len() - i,
    {
        rest.push(line[i]);
        assert(line@.subrange(start as int, i + 1) =~= line@.subrange(start as int, i as int).push(
            line@[i as int],
        ));
        i = i + 1;
    }
    assert(line@.subrange(start as int, line.len() as int) =~= line@.skip(start as int));
    rest
}

fn chars_to_string(v: &Vec<char>) -> (s: String)
    ensures
        s@ == v@,
{
    let mut s = String::new();
    push_chars(&mut s, v);
    s
}

/// Reads the host and port from the text of a configuration file: the value
/// of the last `host=` line and of the last `port=` line, `127.0.0.1` and
/// `2101` where there is none.
pub fn parse_config(content: &str) -> (config: (String, String))
    ensures
        (config.0@, config.1@) == spec_parse_config(content@),
{
    let chars = str_chars(content);
    let lines = split_lines(&chars);
    proof {
        reveal_strlit("host=");
        reveal_strlit("port=");
        reveal_strlit("127.0.0.1");
        reveal_strlit("2101");
    }
    let host_k = str_chars("host=");
    let port_k = str_chars("port=");
    let mut host = str_chars("127.0.0.1");
    let mut port = str_chars("2101");
    let ghost all = line_views(lines@);
    let mut i: usize = 0;
    while i < lines.len()
        invariant
            i <= lines.len(),
            all == line_views(lines@),
            host_k@ == host_key(),
            port_k@ == port_key(),
            host@ == last_value(all.take(i as int), host_key(), default_host()),
            port@ == last_value(all.take(i as int), port_key(), default_port()),
        decreases lines.len() - i,
    {
        let line = &lines[i];
        assert(all.take(i + 1).drop_last() =~= all.take(i as int));
        assert(all.take(i + 1).last() == line@);
        if has_prefix(line, &host_k) {
            host = suffix_from(line, 5);
            assert(line@[0] == 'h');
            assert(!starts_with(line@, port_key())) by {
                if starts_with(line@, port_key()) {
                    assert(line@.take(5)[0] == 'p');
                }
            }
        } else if has_prefix(line, &port_k) {
            port = suffix_from(line, 5);
        }
        i = i + 1;
    }
    assert(all.take(lines.len() as int) =~= all);
    (chars_to_string(&host), chars_to_string(&port))
}

/// The text of a configuration file that records `host` and `port`.
pub fn config_text(host: &str, port: &str) -> (text: String)
    ensures
        text@ == spec_config_text(host@, port@),
{
    proof {
        reveal_strlit("host=");
        reveal_strlit("port=");
    }
    let mut text = String::new();
    push_str(&mut text, "host=");
    push_str(&mut text, host);
    push_char(&mut text, '\n');
    push_str(&mut text, "port=");
    push_str(&mut text, port);
    push_char(&mut text, '\n');
    assert(text@ =~= spec_config_text(host@, port@));
    text
}

} // verus!
