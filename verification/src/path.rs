//! Which paths the vault accepts for its files.
//!
//! A path is accepted when it lies under `/home` and holds no `..`.  "Under
//! `/home`" compares whole path components, as `std::path::Path::starts_with`
//! does on Unix: after the root, empty components (repeated `/`) and `.`
//! components are not counted, so `//home/x` and `/./home/x` are under
//! `/home` while `/homes` is not.
use vstd::prelude::*;
use vstd::utf8::encode_utf8;

verus! {

/// The byte of `/`.
pub open spec fn slash() -> u8 {
    0x2fu8
}

/// The byte of `.`.
pub open spec fn dot() -> u8 {
    0x2eu8
}

/// The bytes of `home`.
pub open spec fn home_bytes() -> Seq<u8> {
    seq![0x68u8, 0x6fu8, 0x6du8, 0x65u8]
}

/// The first component of a relative path (empty and `.` components not
/// counted) is `home`.
pub open spec fn first_component_is_home(t: Seq<u8>) -> bool
    decreases t.len(),
{
    if t.len() == 0 {
        false
    } else if t[0] == slash() {
        first_component_is_home(t.drop_first())
    } else if t[0] == dot() && (t.len() == 1 || t[1] == slash()) {
        first_component_is_home(t.drop_first())
    } else {
        t.len() >= 4 && t.take(4) == home_bytes() && (t.len() == 4 || t[4] == slash())
    }
}

/// The path is absolute and its first component is `home`.
pub open spec fn under_home(b: Seq<u8>) -> bool {
    b.len() > 0 && b[0] == slash() && first_component_is_home(b.drop_first())
}

/// The path holds `..` somewhere.
pub open spec fn has_dot_dot(b: Seq<u8>) -> bool {
    exists|i: int| 0 <= i && i + 1 < b.len() && b[i] == dot() && #[trigger] b[i + 1] == dot()
}

/// A path the vault accepts: under `/home`, without `..`.
pub open spec fn safe_path(b: Seq<u8>) -> bool {
    under_home(b) && !has_dot_dot(b)
}

/// Whether the bytes from `i` on start with the component `home`.
fn home_component_at(b: &[u8], i: usize) -> (r: bool)
    requires
        i <= b@.len(),
    ensures
        r == ({
            let t = b@.skip(i as int);
            t.len() >= 4 && t.take(4) == home_bytes() && (t.len() == 4 || t[4] == slash())
        }),
{
    let n = b.len();
    if n - i < 4 {
        return false;
    }
    let r = b[i] == 0x68u8 && b[i + 1] == 0x6fu8 && b[i + 2] == 0x6du8 && b[i + 3] == 0x65u8 && (
    n - i == 4 || b[i + 4] == 0x2fu8);
    proof {
        let t = b@.skip(i as int);
        if r {
            assert(t.take(4) =~= home_bytes());
        }
        if t.len() >= 4 && t.take(4) == home_bytes() {
            assert(t.take(4)[0] == b@[i as int]);
            assert(t.take(4)[1] == b@[i + 1]);
            assert(t.take(4)[2] == b@[i + 2]);
            assert(t.take(4)[3] == b@[i + 3]);
        }
    }
    r
}

/// Whether the path is absolute with `home` as its first component.
fn is_under_home(b: &[u8]) -> (r: bool)
    ensures
        r == under_home(b@),
{
    let n = b.len();
    if n == 0 || b[0] != 0x2fu8 {
        return false;
    }
    let mut i: usize = 1;
    proof {
        assert(b@.skip(1) =~= b@.drop_first());
    }
    loop
        invariant
            1 <= i <= n,
            n == b@.len(),
            b@[0] == slash(),
            first_component_is_home(b@.skip(i as int)) == first_component_is_home(b@.drop_first()),
        ensures
            i < n,
            first_component_is_home(b@.skip(i as int)) == first_component_is_home(b@.drop_first()),
            !(b@[i as int] == slash()),
            !(b@[i as int] == dot() && (i + 1 == n || b@[i + 1] == slash())),
        decreases n - i,
    {
        if i == n {
            proof {
                assert(b@.skip(i as int).len() == 0);
            }
            return false;
        }
        let c = b[i];
        if c == 0x2fu8 || (c == 0x2eu8 && (i + 1 == n || b[i + 1] == 0x2fu8)) {
            proof {
                let t = b@.skip(i as int);
                assert(t[0] == c);
                assert(t.drop_first() =~= b@.skip(i + 1));
                if t.len() > 1 {
                    assert(t[1] == b@[i + 1]);
                }
            }
            i = i + 1;
        } else {
            break;
        }
    }
    proof {
        let t = b@.skip(i as int);
        assert(t[0] == b@[i as int]);
        if t.len() > 1 {
            assert(t[1] == b@[i + 1]);
        }
    }
    home_component_at(b, i)
}

/// Whether the bytes hold `..` somewhere.
fn contains_dot_dot(b: &[u8]) -> (r: bool)
    ensures
        r == has_dot_dot(b@),
{
    let n = b.len();
    let mut i: usize = 0;
    while i + 1 < n
        invariant
            n == b@.len(),
            i == 0 || i < n,
            forall|j: int| 0 <= j < i && j + 1 < n ==> !(b@[j] == dot() && #[trigger] b@[j + 1] == dot()),
        decreases n - i,
    {
        if b[i] == 0x2eu8 && b[i + 1] == 0x2eu8 {
            return true;
        }
        i = i + 1;
    }
    proof {
        assert forall|j: int| 0 <= j && j + 1 < b@.len() && b@[j] == dot() implies !(#[trigger] b@[j
            + 1] == dot()) by {}
    }
    false
}

/// Whether the vault accepts `path_str` as the place of one of its files:
/// the path must lie under `/home` (compared by whole components) and must
/// not hold `..`.
pub fn is_safe_path(path_str: &str) -> (r: bool)
    ensures
        r == safe_path(encode_utf8(path_str@)),
{
    let b = path_str.as_bytes();
    if !is_under_home(b) {
        return false;
    }
    if contains_dot_dot(b) {
        return false;
    }
    true
}

} // verus!
