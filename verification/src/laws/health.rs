//! What probes ask and what their answers mean.

use vstd::prelude::*;

use crate::health::checker::{has_target, same_target, targets_are_unique, unique_backends};
use crate::health::probe::{
    failure_prefix, first_line, has_2xx, ok_status_is_success, other_status_is_failure,
    position_of, request_text, timeout_text, ProbeStep,
};
use crate::health::state_machine::{recorded, state_after, HealthState};
use crate::types::backend::Backend;

verus! {

/// A success counts the successes in a row on and ends the row of failures, a
/// failure the other way round. The status becomes healthy when the successes in
/// a row reach their threshold, unless it is that already, and unhealthy when
/// the failures in a row reach theirs; otherwise it stays.
pub proof fn results_move_the_status(s: HealthState, ok: bool, healthy: u32, unhealthy: u32)
    requires
        ok ==> s.consecutive_successes < u32::MAX,
        !ok ==> s.consecutive_failures < u32::MAX,
        healthy > 0,
        unhealthy > 0,
    ensures
        ({
            let n = recorded(s, ok, healthy, unhealthy);
            &&& ok ==> n.consecutive_successes == s.consecutive_successes + 1
                && n.consecutive_failures == 0
            &&& !ok ==> n.consecutive_failures == s.consecutive_failures + 1
                && n.consecutive_successes == 0
            &&& ok && s.consecutive_successes + 1 >= healthy ==> n.status is Healthy
            &&& !ok && s.consecutive_failures + 1 >= unhealthy ==> n.status is Unhealthy
            &&& ok && s.consecutive_successes + 1 < healthy ==> n.status == s.status
            &&& !ok && s.consecutive_failures + 1 < unhealthy ==> n.status == s.status
        }),
{
}

/// A backend starts out unknown, with nothing counted, and each result is taken
/// in with what those before it left.
pub proof fn results_are_taken_in_order(results: Seq<bool>, ok: bool, healthy: u32, unhealthy: u32)
    ensures
        ({
            let n = state_after(Seq::empty(), healthy, unhealthy);
            n.status is Unknown && n.consecutive_successes == 0 && n.consecutive_failures == 0
        }),
        state_after(results.push(ok), healthy, unhealthy) == recorded(
            state_after(results, healthy, unhealthy),
            ok,
            healthy,
            unhealthy,
        ),
{
    assert(results.push(ok).drop_last() =~= results);
}

/// An answer is a success if and only if the code behind the protocol version has
/// three digits of which the first is a two, whatever comes behind it.
pub proof fn two_hundreds_are_successes(
    version: Seq<char>,
    x: char,
    y: char,
    z: char,
    rest: Seq<char>,
)
    requires
        forall|i: int|
            0 <= i < version.len() ==> #[trigger] version[i] != '\n' && version[i] != ' ',
        '0' <= x <= '9',
        '0' <= y <= '9',
        '0' <= z <= '9',
        rest.len() == 0 || rest[0] == ' ' || rest[0] == '\n' || (rest.len() > 1 && rest[0] == '\r'
            && rest[1] == '\n'),
    ensures
        has_2xx(first_line(version + seq![' '] + seq![x, y, z] + rest)) <==> x == '2',
{
    let code = seq![x, y, z];
    if x == '2' {
        ok_status_is_success(version, code, rest);
    } else {
        other_status_is_failure(version, code, rest);
    }
}

/// The first line of a text ends before its first line feed, and before a carriage
/// return in front of that; a text without a line feed is one line.
pub proof fn first_line_ends_at_the_line_feed(line: Seq<char>, rest: Seq<char>)
    requires
        forall|i: int| 0 <= i < line.len() ==> #[trigger] line[i] != '\n',
    ensures
        first_line(line) == line,
        line.len() == 0 || line.last() != '\r' ==> first_line(line + seq!['\n'] + rest) == line,
        first_line(line + seq!['\r', '\n'] + rest) == line,
{
    lemma_first_feed(line, line.len() as int);
    let a = line + seq!['\n'] + rest;
    assert forall|i: int| 0 <= i < line.len() implies #[trigger] a[i] != '\n' by {
        assert(a[i] == line[i]);
    }
    lemma_first_feed(a, line.len() as int);
    let b = line + seq!['\r', '\n'] + rest;
    assert forall|i: int| 0 <= i < line.len() + 1 implies #[trigger] b[i] != '\n' by {
        if i < line.len() {
            assert(b[i] == line[i]);
        }
    }
    lemma_first_feed(b, (line.len() + 1) as int);
    assert(first_line(line) =~= line);
    if line.len() == 0 || line.last() != '\r' {
        assert(line.len() > 0 ==> a[line.len() - 1] == line.last());
        assert(first_line(a) =~= line);
    }
    assert(first_line(b) =~= line);
}

proof fn lemma_first_feed(s: Seq<char>, k: int)
    requires
        0 <= k <= s.len(),
        k < s.len() ==> s[k] == '\n',
        forall|i: int| 0 <= i < k ==> #[trigger] s[i] != '\n',
    ensures
        position_of(s, '\n') == k,
    decreases s.len(),
{
    if k > 0 {
        assert(s[0] != '\n');
        let t = s.drop_first();
        assert forall|i: int| 0 <= i < k - 1 implies #[trigger] t[i] != '\n' by {
            assert(t[i] == s[i + 1]);
        }
        lemma_first_feed(t, k - 1);
    }
}

/// A line without a space, and one whose code does not have three characters,
/// reports no success.
pub proof fn short_lines_are_failures(line: Seq<char>, version: Seq<char>, code: Seq<char>)
    requires
        forall|i: int| 0 <= i < line.len() ==> #[trigger] line[i] != ' ',
        forall|i: int| 0 <= i < version.len() ==> #[trigger] version[i] != ' ',
        forall|i: int| 0 <= i < code.len() ==> #[trigger] code[i] != ' ',
        code.len() != 3,
    ensures
        !has_2xx(line),
        !has_2xx(version + seq![' '] + code),
{
    lemma_first_space(line, line.len() as int);
    let s = version + seq![' '] + code;
    assert forall|i: int| 0 <= i < version.len() implies #[trigger] s[i] != ' ' by {
        assert(s[i] == version[i]);
    }
    lemma_first_space(s, version.len() as int);
    let behind = s.skip((version.len() + 1) as int);
    assert(behind =~= code);
    lemma_first_space(code, code.len() as int);
    assert(code.take(code.len() as int) =~= code);
}

proof fn lemma_first_space(s: Seq<char>, k: int)
    requires
        0 <= k <= s.len(),
        k < s.len() ==> s[k] == ' ',
        forall|i: int| 0 <= i < k ==> #[trigger] s[i] != ' ',
    ensures
        position_of(s, ' ') == k,
    decreases s.len(),
{
    if k > 0 {
        assert(s[0] != ' ');
        let t = s.drop_first();
        assert forall|i: int| 0 <= i < k - 1 implies #[trigger] t[i] != ' ' by {
            assert(t[i] == s[i + 1]);
        }
        lemma_first_space(t, k - 1);
    }
}

/// A request asks for the path and names the backend's address as its host.
pub proof fn requests_name_path_and_host(path: Seq<char>, target: Backend)
    ensures
        ({
            let r = request_text(path, target);
            let host = target.ip.text();
            let p = 4 + path.len() as int;
            &&& r.len() == p + 17 + host.len() + 23
            &&& r.take(4) == seq!['G', 'E', 'T', ' ']
            &&& r.subrange(4, p) == path
            &&& r.subrange(p, p + 17) == seq![
                ' ', 'H', 'T', 'T', 'P', '/', '1', '.', '1', '\r', '\n', 'H', 'o', 's', 't', ':',
                ' ',
            ]
            &&& r.subrange(p + 17, p + 17 + host.len()) == host
            &&& r.skip(p + 17 + host.len()) == seq![
                '\r', '\n', 'C', 'o', 'n', 'n', 'e', 'c', 't', 'i', 'o', 'n', ':', ' ', 'c', 'l',
                'o', 's', 'e', '\r', '\n', '\r', '\n',
            ]
        }),
{
    reveal_strlit("GET ");
    reveal_strlit(" HTTP/1.1\r\nHost: ");
    reveal_strlit("\r\nConnection: close\r\n\r\n");
    let r = request_text(path, target);
    let host = target.ip.text();
    let p = 4 + path.len() as int;
    assert(r.take(4) =~= seq!['G', 'E', 'T', ' ']);
    assert(r.subrange(4, p) =~= path);
    assert(r.subrange(p + 17, p + 17 + host.len()) =~= host);
}

/// A failure says which step of the probe failed.
pub proof fn failures_name_their_step(step: ProbeStep)
    ensures
        failure_prefix(step) == (match step {
            ProbeStep::TcpConnect => "tcp connect"@,
            ProbeStep::Connect => "connect"@,
            ProbeStep::TlsHandshake => "TLS handshake"@,
            ProbeStep::Read => "read"@,
        }) + (if step is Read {
            " error: "@
        } else {
            " failed: "@
        }),
        timeout_text(step) == (match step {
            ProbeStep::TcpConnect => "tcp connect"@,
            ProbeStep::Connect => "connect"@,
            ProbeStep::TlsHandshake => "TLS handshake"@,
            ProbeStep::Read => "read"@,
        }) + " timed out"@,
{
    reveal_strlit("tcp connect");
    reveal_strlit("connect");
    reveal_strlit("TLS handshake");
    reveal_strlit("read");
    reveal_strlit(" error: ");
    reveal_strlit(" failed: ");
    reveal_strlit(" timed out");
    reveal_strlit("tcp connect failed: ");
    reveal_strlit("connect failed: ");
    reveal_strlit("TLS handshake failed: ");
    reveal_strlit("read error: ");
    reveal_strlit("tcp connect timed out");
    reveal_strlit("connect timed out");
    reveal_strlit("TLS handshake timed out");
    reveal_strlit("read timed out");
    let name = match step {
        ProbeStep::TcpConnect => "tcp connect"@,
        ProbeStep::Connect => "connect"@,
        ProbeStep::TlsHandshake => "TLS handshake"@,
        ProbeStep::Read => "read"@,
    };
    assert(timeout_text(step) =~= name + " timed out"@);
    assert(failure_prefix(step) =~= name + (if step is Read {
        " error: "@
    } else {
        " failed: "@
    }));
}

/// Of the backends at one address and port the first is probed, in the order in
/// which they are given; the others are not.
pub proof fn first_backend_of_a_target_is_probed(s: Seq<Backend>, b: Backend)
    ensures
        unique_backends(Seq::<Backend>::empty()) == Seq::<Backend>::empty(),
        (exists|i: int| 0 <= i < s.len() && (#[trigger] s[i]).ip == b.ip && s[i].port == b.port)
            ==> unique_backends(s.push(b)) == unique_backends(s),
        !(exists|i: int| 0 <= i < s.len() && (#[trigger] s[i]).ip == b.ip && s[i].port == b.port)
            ==> unique_backends(s.push(b)) == unique_backends(s).push(b),
{
    assert(s.push(b).drop_last() =~= s);
    assert(s.push(b).last() == b);
    targets_are_unique(s);
    let u = unique_backends(s);
    if exists|i: int| 0 <= i < s.len() && (#[trigger] s[i]).ip == b.ip && s[i].port == b.port {
        let i = choose|i: int|
            0 <= i < s.len() && (#[trigger] s[i]).ip == b.ip && s[i].port == b.port;
        assert(has_target(u, s[i]));
        let k = choose|k: int|
            0 <= k < u.len() && same_target(#[trigger] u[k], s[i]);
        assert(same_target(u[k], b));
        assert(has_target(u, b));
    }
    if has_target(u, b) {
        let k = choose|k: int|
            0 <= k < u.len() && same_target(#[trigger] u[k], b);
        assert(s.contains(u[k]));
        let i = choose|i: int| 0 <= i < s.len() && s[i] == u[k];
        assert(s[i].ip == b.ip && s[i].port == b.port);
    }
}

} // verus!
