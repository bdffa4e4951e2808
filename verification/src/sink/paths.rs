//! Target paths and the temporary files beside them.
//!
//! A path is a string of names separated by slashes. Repeated slashes, a
//! slash at the end and names of a single dot, but for one at the very
//! beginning, say nothing. A temporary file lies in the directory of its
//! target, so that it can be renamed to it in one step.
use vstd::prelude::*;

use crate::sink::error;
use crate::sink::error::{Result, TesseraSinkError};
use crate::text;

verus! {

/// The path without what says nothing at its end.
pub open spec fn trimmed(p: Seq<char>) -> Seq<char>
    decreases p.len(),
{
    if p.len() >= 2 && (p.last() == '/' || (p.last() == '.' && p[p.len() - 2] == '/')) {
        trimmed(p.drop_last())
    } else {
        p
    }
}

/// Where the last slash is, or -1.
pub open spec fn last_slash(p: Seq<char>) -> int
    decreases p.len(),
{
    if p.len() == 0 {
        -1
    } else if p.last() == '/' {
        p.len() - 1
    } else {
        last_slash(p.drop_last())
    }
}

/// The last name of the path, if it names a file: not where the path is
/// empty or the root, or ends in `.` or `..`.
pub open spec fn file_name(p: Seq<char>) -> Option<Seq<char>> {
    let t = trimmed(p);
    let name = t.skip(last_slash(t) + 1);
    if name.len() == 0 || name == "."@ || name == ".."@ {
        None
    } else {
        Some(name)
    }
}

/// The directory of the path's last name; empty where that is the current
/// one.
pub open spec fn directory(p: Seq<char>) -> Seq<char> {
    let t = trimmed(p);
    let k = last_slash(t);
    if k < 0 {
        Seq::empty()
    } else if k == 0 {
        "/"@
    } else {
        trimmed(t.take(k))
    }
}

/// The path of `name` in a directory.
pub open spec fn joined(dir: Seq<char>, name: Seq<char>) -> Seq<char> {
    if dir.len() == 0 || dir.last() == '/' {
        dir + name
    } else {
        dir + "/"@ + name
    }
}

/// Name of the temporary file of a job whose target has this name.
pub open spec fn temp_name(name: Seq<char>, job_id: u128) -> Seq<char> {
    "."@ + name + "."@ + text::hex_fixed(job_id as nat, 32) + ".tmp"@
}

/// Path of the temporary file of a job with this target.
pub open spec fn temp_path(p: Seq<char>, job_id: u128) -> Seq<char> {
    joined(directory(p), temp_name(file_name(p)->0, job_id))
}

/// What `{:?}` prints for a path.
pub uninterp spec fn debug_path_text(p: Seq<char>) -> Seq<char>;

/// `format!("{:?}", p)` of std on a path. The contract claims only that the
/// text depends on nothing but the path.
#[verifier::external_body]
fn debug_path(p: &str) -> (r: String)
    ensures
        r@ == debug_path_text(p@),
{
    format!("{:?}", std::path::Path::new(p))
}

/// Words for a target that names no file.
pub open spec fn no_name_words(p: Seq<char>) -> Seq<char> {
    "target path "@ + debug_path_text(p) + " has no file name component"@
}

/// Length of the path without what says nothing at its end.
fn trim(p: &str) -> (len: usize)
    ensures
        len <= p@.len(),
        trimmed(p@) == p@.take(len as int),
{
    let mut len: usize = p.unicode_len();
    assert(p@.take(len as int) =~= p@);
    while len >= 2 && (p.get_char(len - 1) == '/' || (p.get_char(len - 1) == '.' && p.get_char(
        len - 2,
    ) == '/'))
        invariant
            len <= p@.len(),
            trimmed(p@) == trimmed(p@.take(len as int)),
        decreases len,
    {
        assert(p@.take(len as int).drop_last() =~= p@.take(len - 1));
        len = len - 1;
    }
    len
}

/// Where the last slash among the first `len` characters is.
fn find_slash(p: &str, len: usize) -> (k: Option<usize>)
    requires
        len <= p@.len(),
    ensures
        match k {
            Some(k) => k < len && last_slash(p@.take(len as int)) == k,
            None => last_slash(p@.take(len as int)) == -1,
        },
{
    let mut i: usize = len;
    while i > 0
        invariant
            i <= len <= p@.len(),
            last_slash(p@.take(len as int)) == last_slash(p@.take(i as int)),
        decreases i,
    {
        assert(p@.take(i as int).last() == p@[i - 1]);
        if p.get_char(i - 1) == '/' {
            return Some(i - 1);
        }
        assert(p@.take(i as int).drop_last() =~= p@.take(i - 1));
        i = i - 1;
    }
    None
}

/// Path of the temporary file of a job with this target: in the target's
/// directory, under a name that begins with a dot and has the job's name in
/// it.
pub fn temp_path_for(final_path: &str, job_id: u128) -> (r: Result<String>)
    ensures
        match file_name(final_path@) {
            Some(name) => r matches Ok(t) && t@ == temp_path(final_path@, job_id),
            None => r matches Err(e) && error::is_config(e, no_name_words(final_path@)),
        },
{
    let ghost p = final_path@;
    let ghost t = trimmed(p);
    let len: usize = trim(final_path);
    let slash: Option<usize> = find_slash(final_path, len);
    let start: usize = match slash {
        Some(k) => k + 1,
        None => 0,
    };
    let name = final_path.substring_char(start, len);
    assert(name@ =~= t.skip(last_slash(t) + 1));
    if name.is_empty() || text::same(name, ".") || text::same(name, "..") {
        let mut words = String::from_str("target path ");
        words.append(debug_path(final_path).as_str());
        words.append(" has no file name component");
        return Err(TesseraSinkError::Config(words));
    }
    let mut r = String::new();
    match slash {
        None => {
            assert(directory(p) =~= Seq::<char>::empty());
        },
        Some(k) => {
            if k == 0 {
                proof {
                    reveal_strlit("/");
                }
                r.append("/");
                assert(r@ =~= "/"@);
            } else {
                let above = final_path.substring_char(0, k);
                let n: usize = trim(above);
                let dir = above.substring_char(0, n);
                proof {
                    assert(above@ =~= t.take(k as int));
                    assert(dir@ =~= directory(p));
                    lemma_trimmed(t.take(k as int));
                }
                r.append(dir);
                assert(r@ =~= directory(p));
                if dir.get_char(n - 1) != '/' {
                    r.append("/");
                }
            }
        },
    }
    let ghost prefix = r@;
    r.append(".");
    r.append(name);
    r.append(".");
    text::push_hex_fixed(&mut r, job_id, 32);
    r.append(".tmp");
    assert(r@ =~= prefix + temp_name(name@, job_id));
    assert(r@ =~= temp_path(p, job_id));
    Ok(r)
}

/// Trimming leaves something of what was something, and nothing more to
/// trim.
proof fn lemma_trimmed(p: Seq<char>)
    ensures
        p.len() > 0 ==> trimmed(p).len() > 0,
        trimmed(trimmed(p)) == trimmed(p),
        trimmed(p).len() >= 2 ==> trimmed(p).last() != '/',
    decreases p.len(),
{
    if p.len() >= 2 && (p.last() == '/' || (p.last() == '.' && p[p.len() - 2] == '/')) {
        lemma_trimmed(p.drop_last());
    }
}

/// The last slash is one, and none comes behind it.
proof fn lemma_last_slash(p: Seq<char>)
    ensures
        -1 <= last_slash(p) < p.len(),
        last_slash(p) >= 0 ==> p[last_slash(p)] == '/',
        forall|i: int| last_slash(p) < i < p.len() ==> p[i] != '/',
    decreases p.len(),
{
    if p.len() > 0 && p.last() != '/' {
        let q = p.drop_last();
        lemma_last_slash(q);
        assert forall|i: int| last_slash(p) < i < p.len() implies p[i] != '/' by {
            if i < q.len() {
                assert(q[i] == p[i]);
            }
        }
    }
}

/// A slash that none comes behind is the last one.
proof fn lemma_is_last_slash(p: Seq<char>, k: int)
    requires
        -1 <= k < p.len(),
        k >= 0 ==> p[k] == '/',
        forall|i: int| k < i < p.len() ==> p[i] != '/',
    ensures
        last_slash(p) == k,
{
    lemma_last_slash(p);
}

/// Digits of a number differ from a slash, and there are as many as asked
/// for.
proof fn lemma_hex_digits(n: nat, k: nat)
    ensures
        text::hex_fixed(n, k).len() == k,
        forall|i: int| 0 <= i < k ==> text::hex_fixed(n, k)[i] != '/',
    decreases k,
{
    if k > 0 {
        lemma_hex_digits(n / 16, (k - 1) as nat);
        assert(text::digit_char(n % 16) != '/');
    }
}

/// Different numbers of the same width have different digits.
proof fn lemma_hex_injective(a: nat, b: nat, k: nat)
    requires
        text::hex_fixed(a, k) == text::hex_fixed(b, k),
        a < vstd::arithmetic::power::pow(16, k),
        b < vstd::arithmetic::power::pow(16, k),
    ensures
        a == b,
    decreases k,
{
    if k == 0 {
        vstd::arithmetic::power::lemma_pow0(16);
    } else {
        let j = (k - 1) as nat;
        vstd::arithmetic::power::lemma_pow_adds(16, 1, j);
        vstd::arithmetic::power::lemma_pow1(16);
        let x = text::hex_fixed(a, k);
        let y = text::hex_fixed(b, k);
        assert(x.last() == text::digit_char(a % 16));
        assert(y.last() == text::digit_char(b % 16));
        assert(x.drop_last() =~= text::hex_fixed(a / 16, j));
        assert(y.drop_last() =~= text::hex_fixed(b / 16, j));
        assert(a % 16 == b % 16);
        lemma_hex_injective(a / 16, b / 16, j);
    }
}

/// A temporary file has the name made for it and lies in the directory of
/// its target, so it can be renamed to the target in one step; and it never
/// is the target itself.
pub proof fn law_temp_file_lies_beside_its_target(p: Seq<char>, job_id: u128)
    requires
        file_name(p) is Some,
    ensures
        file_name(temp_path(p, job_id)) == Some(temp_name(file_name(p)->0, job_id)),
        directory(temp_path(p, job_id)) == directory(p),
        temp_path(p, job_id) != p,
        file_name(temp_path(p, job_id)) != file_name(p),
{
    let t = trimmed(p);
    let k = last_slash(t);
    lemma_last_slash(t);
    let name = file_name(p)->0;
    let dir = directory(p);
    let f = temp_name(name, job_id);
    let out = temp_path(p, job_id);
    reveal_strlit(".");
    reveal_strlit("..");
    reveal_strlit(".tmp");
    reveal_strlit("/");
    lemma_hex_digits(job_id as nat, 32);
    assert(f.len() == name.len() + 38);
    assert(f.last() == 'p');
    assert(f[0] == '.');
    assert forall|i: int| 0 <= i < f.len() implies f[i] != '/' by {
        if 1 <= i < 1 + name.len() {
            assert(f[i] == name[i - 1]);
            assert(name[i - 1] == t[k + i]);
        }
    }
    assert(out.last() == 'p');
    assert(trimmed(out) == out);
    if k < 0 {
        assert(dir =~= Seq::<char>::empty());
        assert(out =~= f);
        lemma_is_last_slash(out, -1);
        assert(out.skip(0) =~= f);
    } else if k == 0 {
        assert(out =~= "/"@ + f);
        lemma_is_last_slash(out, 0);
        assert(out.skip(1) =~= f);
    } else {
        lemma_trimmed(t.take(k));
        let d = dir.len() as int;
        if dir.last() == '/' {
            assert(d == 1);
            assert(dir =~= "/"@);
            assert(out =~= "/"@ + f);
            lemma_is_last_slash(out, 0);
            assert(out.skip(1) =~= f);
        } else {
            assert(out =~= dir + "/"@ + f);
            assert forall|i: int| d < i < out.len() implies out[i] != '/' by {
                assert(out[i] == f[i - d - 1]);
            }
            lemma_is_last_slash(out, d);
            assert(out.skip(d + 1) =~= f);
            assert(out.take(d) =~= dir);
        }
    }
}

/// Two jobs never share a temporary file, whatever their targets.
pub proof fn law_temp_files_differ(p: Seq<char>, a: u128, q: Seq<char>, b: u128)
    requires
        file_name(p) is Some,
        file_name(q) is Some,
        a != b,
    ensures
        temp_path(p, a) != temp_path(q, b),
{
    if temp_path(p, a) == temp_path(q, b) {
        law_temp_file_lies_beside_its_target(p, a);
        law_temp_file_lies_beside_its_target(q, b);
        let x = temp_name(file_name(p)->0, a);
        let y = temp_name(file_name(q)->0, b);
        assert(x == y);
        reveal_strlit(".");
        reveal_strlit(".tmp");
        lemma_hex_digits(a as nat, 32);
        lemma_hex_digits(b as nat, 32);
        let n = x.len() as int;
        assert(x.subrange(n - 36, n - 4) =~= text::hex_fixed(a as nat, 32));
        assert(y.subrange(n - 36, n - 4) =~= text::hex_fixed(b as nat, 32));
        assert(vstd::arithmetic::power::pow(16, 32) == 0x1_0000_0000_0000_0000_0000_0000_0000_0000)
            by {
            reveal(vstd::arithmetic::power::pow);
            reveal_with_fuel(vstd::arithmetic::power::pow, 33);
        }
        lemma_hex_injective(a as nat, b as nat, 32);
    }
}

/// Behind a slash, or alone, a name that is not empty and is neither one dot
/// nor two is the file that the path names, and what is before the slash is
/// its directory.
pub proof fn law_how_a_path_is_read(dir: Seq<char>, name: Seq<char>)
    requires
        name.len() > 0,
        forall|i: int| 0 <= i < name.len() ==> #[trigger] name[i] != '/',
        name != seq!['.'],
        name != seq!['.', '.'],
        dir.len() > 0,
        dir.last() != '/',
        dir.last() != '.',
    ensures
        file_name(name) == Some(name),
        directory(name) == Seq::<char>::empty(),
        file_name(dir + seq!['/'] + name) == Some(name),
        directory(dir + seq!['/'] + name) == dir,
        file_name(seq!['/'] + name) == Some(name),
        directory(seq!['/'] + name) == seq!['/'],
{
    lemma_dots();
    let e = Seq::<char>::empty();
    assert(e + name =~= name);
    lemma_named(e, name);
    assert(name.skip(0) =~= name);
    let d = dir.len() as int;
    let q = dir + seq!['/'] + name;
    lemma_named(dir + seq!['/'], name);
    assert(q.take(d) =~= dir);
    assert(trimmed(dir) == dir);
    lemma_named(seq!['/'], name);
}

/// A slash at the end of a path, and a dot behind it, say nothing.
pub proof fn law_what_says_nothing_in_a_path(p: Seq<char>)
    requires
        p.len() > 0,
    ensures
        file_name(p + seq!['/']) == file_name(p),
        directory(p + seq!['/']) == directory(p),
        file_name(p + seq!['/', '.']) == file_name(p),
        directory(p + seq!['/', '.']) == directory(p),
{
    let a = p + seq!['/'];
    let b = p + seq!['/', '.'];
    assert(a.drop_last() =~= p);
    assert(trimmed(a) == trimmed(p));
    assert(b.drop_last() =~= a);
    assert(b.last() == '.' && b[b.len() - 2] == '/');
    assert(trimmed(b) == trimmed(a));
}

/// No file is named by a path that is empty, is the root, or ends in two
/// dots, nor by a dot alone.
pub proof fn law_which_paths_name_no_file(dir: Seq<char>)
    requires
        dir.len() > 0,
    ensures
        file_name(Seq::empty()) is None,
        file_name(seq!['/']) is None,
        file_name(seq!['.']) is None,
        file_name(seq!['.', '.']) is None,
        file_name(dir + seq!['/', '.', '.']) is None,
{
    lemma_dots();
    let e = Seq::<char>::empty();
    assert(e.skip(0) =~= e);
    let root = seq!['/'];
    lemma_is_last_slash(root, 0);
    assert(root.skip(1) =~= e);
    let one = seq!['.'];
    lemma_is_last_slash(one, -1);
    assert(one.skip(0) =~= one);
    let two = seq!['.', '.'];
    lemma_named(e, two);
    assert(e + two =~= two);
    assert(two.skip(0) =~= two);
    let up = dir + seq!['/'] + two;
    assert(up =~= dir + seq!['/', '.', '.']);
    lemma_named(dir + seq!['/'], two);
}

proof fn lemma_dots()
    ensures
        "."@ == seq!['.'],
        ".."@ == seq!['.', '.'],
        "/"@ == seq!['/'],
{
    reveal_strlit(".");
    reveal_strlit("..");
    reveal_strlit("/");
    assert("."@ =~= seq!['.']);
    assert(".."@ =~= seq!['.', '.']);
    assert("/"@ =~= seq!['/']);
}

/// A name behind a slash, or alone, is the last one of its path.
proof fn lemma_named(before: Seq<char>, name: Seq<char>)
    requires
        before.len() > 0 ==> before.last() == '/',
        name.len() > 0,
        forall|i: int| 0 <= i < name.len() ==> #[trigger] name[i] != '/',
        name != seq!['.'],
    ensures
        trimmed(before + name) == before + name,
        last_slash(before + name) == before.len() - 1,
        (before + name).skip(before.len() as int) == name,
{
    let p = before + name;
    let k = before.len() as int;
    lemma_name_ends(before, name);
    assert forall|i: int| k - 1 < i < p.len() implies p[i] != '/' by {
        assert(p[i] == name[i - k]);
    }
    if k > 0 {
        assert(p[k - 1] == before.last());
    }
    lemma_is_last_slash(p, k - 1);
    assert(p.skip(k) =~= name);
}

/// A path that ends in a name has nothing at its end that says nothing.
proof fn lemma_name_ends(before: Seq<char>, name: Seq<char>)
    requires
        name.len() > 0,
        forall|i: int| 0 <= i < name.len() ==> #[trigger] name[i] != '/',
        name != seq!['.'],
    ensures
        trimmed(before + name) == before + name,
{
    let p = before + name;
    assert(p.last() == name.last());
    assert(name.last() == name[name.len() - 1]);
    if p.last() == '.' && name.len() == 1 {
        assert(name =~= seq!['.']);
    }
    if name.len() >= 2 {
        assert(p[p.len() - 2] == name[name.len() - 2]);
    }
}

} // verus!
