//! Starting the daemon, and the requests its socket answers.

use vstd::prelude::*;

verus! {

/// The command that starts the daemon in the foreground.
#[derive(Clone, Copy, Debug)]
pub struct StartDaemon;

/// The ASCII bytes of the word `status`.
pub open spec fn status_word() -> Seq<u8> {
    seq![0x73u8, 0x74u8, 0x61u8, 0x74u8, 0x75u8, 0x73u8]
}

/// The length of the UTF-8 encoding of a white-space character at the start
/// of `s`, or 0 where `s` does not start with one. White space is Unicode's
/// White_Space set: U+0009 to U+000D, U+0020, U+0085, U+00A0, U+1680,
/// U+2000 to U+200A, U+2028, U+2029, U+202F, U+205F and U+3000.
pub open spec fn space_len(s: Seq<u8>) -> nat {
    if s.len() >= 1 && ((0x09 <= s[0] && s[0] <= 0x0d) || s[0] == 0x20) {
        1
    } else if s.len() >= 2 && s[0] == 0xc2 && (s[1] == 0x85 || s[1] == 0xa0) {
        2
    } else if s.len() >= 3 && ((s[0] == 0xe1 && s[1] == 0x9a && s[2] == 0x80) || (s[0] == 0xe2
        && s[1] == 0x80 && ((0x80 <= s[2] && s[2] <= 0x8a) || s[2] == 0xa8 || s[2] == 0xa9
        || s[2] == 0xaf)) || (s[0] == 0xe2 && s[1] == 0x81 && s[2] == 0x9f) || (s[0] == 0xe3
        && s[1] == 0x80 && s[2] == 0x80)) {
        3
    } else {
        0
    }
}

/// The length of the run of encoded white-space characters that `s` starts with.
pub open spec fn leading_space(s: Seq<u8>) -> nat
    decreases s.len(),
{
    let k = space_len(s);
    if k == 0 || k > s.len() {
        0
    } else {
        k + leading_space(s.skip(k as int))
    }
}

/// A request is the status query when, decoded as UTF-8 and trimmed of white
/// space at both ends, it reads `status`: white space, the word, then white
/// space to the end.
pub open spec fn is_status_query(request: Seq<u8>) -> bool {
    let i = leading_space(request);
    let rest = request.skip(i as int);
    &&& rest.len() >= 6
    &&& rest.take(6) == status_word()
    &&& leading_space(rest.skip(6)) == rest.len() - 6
}

fn space_len_at(buf: &[u8], i: usize) -> (k: usize)
    requires
        i <= buf@.len(),
    ensures
        k == space_len(buf@.skip(i as int)),
{
    let ghost s = buf@.skip(i as int);
    let n: usize = buf.len() - i;
    if n >= 1 && ((0x09 <= buf[i] && buf[i] <= 0x0d) || buf[i] == 0x20) {
        assert(s[0] == buf@[i as int]);
        1
    } else if n >= 2 && buf[i] == 0xc2 && (buf[i + 1] == 0x85 || buf[i + 1] == 0xa0) {
        assert(s[0] == buf@[i as int] && s[1] == buf@[i + 1]);
        2
    } else if n >= 3 && ((buf[i] == 0xe1 && buf[i + 1] == 0x9a && buf[i + 2] == 0x80) || (buf[i]
        == 0xe2 && buf[i + 1] == 0x80 && ((0x80 <= buf[i + 2] && buf[i + 2] <= 0x8a) || buf[i
        + 2] == 0xa8 || buf[i + 2] == 0xa9 || buf[i + 2] == 0xaf)) || (buf[i] == 0xe2 && buf[i
        + 1] == 0x81 && buf[i + 2] == 0x9f) || (buf[i] == 0xe3 && buf[i + 1] == 0x80 && buf[i
        + 2] == 0x80)) {
        assert(s[0] == buf@[i as int] && s[1] == buf@[i + 1] && s[2] == buf@[i + 2]);
        3
    } else {
        assert(n >= 1 ==> s[0] == buf@[i as int]);
        assert(n >= 2 ==> s[1] == buf@[i + 1]);
        assert(n >= 3 ==> s[2] == buf@[i + 2]);
        0
    }
}

/// Skips the run of encoded white-space characters starting at `i`.
fn skip_space(buf: &[u8], i: usize) -> (j: usize)
    requires
        i <= buf@.len(),
    ensures
        j == i + leading_space(buf@.skip(i as int)),
        j <= buf@.len(),
{
    let mut j: usize = i;
    while j < buf.len()
        invariant
            i <= j <= buf@.len(),
            leading_space(buf@.skip(i as int)) == (j - i) + leading_space(buf@.skip(j as int)),
        decreases buf@.len() - j,
    {
        let k: usize = space_len_at(buf, j);
        if k == 0 {
            return j;
        }
        assert(buf@.skip(j as int).skip(k as int) =~= buf@.skip(j + k));
        j = j + k;
    }
    assert(buf@.skip(j as int).len() == 0);
    j
}

/// Whether a request read from the daemon's socket is the status query.
pub fn is_status_request(request: &[u8]) -> (r: bool)
    ensures
        r == is_status_query(request@),
{
    let i: usize = skip_space(request, 0);
    assert(request@.skip(0) =~= request@);
    let ghost rest = request@.skip(i as int);
    if request.len() - i < 6 {
        return false;
    }
    let word: bool = request[i] == 0x73 && request[i + 1] == 0x74 && request[i + 2] == 0x61
        && request[i + 3] == 0x74 && request[i + 4] == 0x75 && request[i + 5] == 0x73;
    assert(word == (rest.take(6) =~= status_word()));
    if !word {
        return false;
    }
    let j: usize = skip_space(request, i + 6);
    assert(rest.skip(6) =~= request@.skip(i + 6));
    j == request.len()
}


/// White space before a request does not change whether it is the status
/// query.
pub proof fn lemma_leading_space_ignored(request: Seq<u8>)
    ensures
        is_status_query(seq![0x20u8] + request) == is_status_query(request),
{
    let t = seq![0x20u8] + request;
    assert(space_len(t) == 1);
    assert(t.skip(1) =~= request);
    let i = leading_space(request);
    lemma_leading_space_bound(request);
    assert(leading_space(t) == 1 + i);
    assert(t.skip(1 + i as int) =~= request.skip(i as int));
}


proof fn lemma_leading_space_bound(s: Seq<u8>)
    ensures
        leading_space(s) <= s.len(),
    decreases s.len(),
{
    let k = space_len(s);
    if k != 0 && k <= s.len() {
        lemma_leading_space_bound(s.skip(k as int));
    }
}

} // verus!
