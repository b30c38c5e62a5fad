use vstd::prelude::*;

use vstd::string::{StrSliceExecFns, StringExecFns};

verus! {

/// The length of the directory part of `p`: everything up to and including
/// the last `/`, 0 when there is none.
pub open spec fn dir_end(p: Seq<char>) -> int
    decreases p.len(),
{
    if p.len() == 0 {
        0
    } else if p.last() == '/' {
        p.len() as int
    } else {
        dir_end(p.drop_last())
    }
}

/// The index of the dot that opens the extension of `p`'s file name, -1 when
/// there is none. The extension dot is the last dot of the file name, except
/// that a dot at the file name's very start opens no extension.
pub open spec fn ext_dot(p: Seq<char>) -> int
    decreases p.len(),
{
    if p.len() == 0 {
        -1
    } else if p.last() == '/' {
        -1
    } else if p.last() == '.' && p.len() - 1 > dir_end(p) {
        p.len() - 1
    } else {
        ext_dot(p.drop_last())
    }
}

/// The file name of `p` without its extension and without the extension dot.
pub open spec fn file_stem_of(p: Seq<char>) -> Seq<char> {
    if ext_dot(p) >= 0 {
        p.subrange(dir_end(p), ext_dot(p))
    } else {
        p.skip(dir_end(p))
    }
}

/// `p` with its file name replaced by `name`, the extension of the old file
/// name kept: directory part, then `name`, then the old extension dot and
/// extension, if the old file name had one.
pub open spec fn change_file_name_spec(p: Seq<char>, name: Seq<char>) -> Seq<char> {
    p.take(dir_end(p)) + name + (if ext_dot(p) >= 0 {
        seq!['.'] + p.skip(ext_dot(p) + 1)
    } else {
        Seq::<char>::empty()
    })
}

proof fn lemma_dir_end_props(p: Seq<char>)
    ensures
        0 <= dir_end(p) <= p.len(),
        dir_end(p) > 0 ==> p[dir_end(p) - 1] == '/',
        forall|j: int| dir_end(p) <= j < p.len() ==> p[j] != '/',
    decreases p.len(),
{
    if p.len() > 0 && p.last() != '/' {
        lemma_dir_end_props(p.drop_last());
        assert(forall|j: int|
            0 <= j < p.len() - 1 ==> p[j] == p.drop_last()[j]);
    }
}

proof fn lemma_dir_end_take(p: Seq<char>, e: int)
    requires
        dir_end(p) <= e <= p.len(),
    ensures
        dir_end(p.take(e)) == dir_end(p),
    decreases e,
{
    lemma_dir_end_props(p);
    let d = dir_end(p);
    if e == d {
        if d == 0 {
            assert(p.take(0) =~= Seq::<char>::empty());
        } else {
            assert(p.take(d).last() == p[d - 1]);
        }
    } else {
        assert(p.take(e).last() == p[e - 1]);
        assert(p[e - 1] != '/');
        assert(p.take(e).drop_last() =~= p.take(e - 1));
        lemma_dir_end_take(p, e - 1);
    }
}

/// The directory length, and the extension dot if the file name has one:
/// exactly `dir_end` and `ext_dot` of the path.
fn split_path(path: &str) -> (r: (usize, bool, usize))
    ensures
        r.0 as int == dir_end(path@),
        r.0 as int <= path@.len(),
        r.1 <==> ext_dot(path@) >= 0,
        r.1 ==> r.2 as int == ext_dot(path@) && r.2 < path@.len() && r.0 <= r.2,
{
    let n = path.unicode_len();
    let ghost p = path@;
    let mut d: usize = n;
    proof {
        assert(p.take(n as int) =~= p);
    }
    while d > 0
        invariant
            d <= n,
            n as nat == p.len(),
            p == path@,
            dir_end(p) == dir_end(p.take(d as int)),
        ensures
            d <= n,
            n as nat == p.len(),
            p == path@,
            dir_end(p) == d as int,
        decreases d,
    {
        if path.get_char(d - 1) == '/' {
            proof {
                assert(p.take(d as int).last() == p[d - 1]);
            }
            break ;
        }
        proof {
            assert(p.take(d as int).last() == p[d - 1]);
            assert(p.take(d as int).drop_last() =~= p.take(d - 1));
        }
        d = d - 1;
    }
    proof {
        if d == 0 {
            assert(p.take(0) =~= Seq::<char>::empty());
        }
        lemma_dir_end_props(p);
    }
    let mut e: usize = n;
    let mut dot_idx: usize = 0;
    let mut has_ext: bool = false;
    proof {
        assert(p.take(n as int) =~= p);
    }
    while e > d
        invariant_except_break
            !has_ext,
            ext_dot(p) == ext_dot(p.take(e as int)),
        invariant
            d <= e <= n,
            n as nat == p.len(),
            p == path@,
            dir_end(p) == d as int,
            dir_end(p) > 0 ==> p[dir_end(p) - 1] == '/',
            forall|j: int| dir_end(p) <= j < p.len() ==> p[j] != '/',
        ensures
            n as nat == p.len(),
            p == path@,
            has_ext ==> dot_idx as int == ext_dot(p) && ext_dot(p) >= 0 && dot_idx < n,
            !has_ext ==> ext_dot(p) == ext_dot(p.take(d as int)),
        decreases e,
    {
        proof {
            lemma_dir_end_take(p, e as int);
            assert(p.take(e as int).last() == p[e - 1]);
        }
        let c = path.get_char(e - 1);
        if c == '.' && e - 1 > d {
            dot_idx = e - 1;
            has_ext = true;
            proof {
                assert(ext_dot(p.take(e as int)) == e - 1);
            }
            break ;
        }
        proof {
            assert(p.take(e as int).drop_last() =~= p.take(e - 1));
        }
        e = e - 1;
    }
    proof {
        lemma_dir_end_props(p);
        if has_ext {
            lemma_ext_dot_after_dir(p);
        }
        if !has_ext {
            assert(ext_dot(p) == ext_dot(p.take(d as int)));
            if d == 0 {
                assert(p.take(0) =~= Seq::<char>::empty());
            } else {
                assert(p.take(d as int).last() == p[d - 1]);
            }
        }
    }
    (d, has_ext, dot_idx)
}

/// Replace the file name of `path` by `name`, keeping the old file name's
/// extension: `a/b/out.gpx` with name `out_1` becomes `a/b/out_1.gpx`.
pub fn change_file_name(path: &str, name: &str) -> (r: String)
    ensures
        r@ == change_file_name_spec(path@, name@),
{
    let (d, has_ext, dot_idx) = split_path(path);
    let n = path.unicode_len();
    let dir_part = path.substring_char(0, d);
    let mut result = String::from_str(dir_part);
    result.append(name);
    if has_ext {
        result.append(".");
        let ext = path.substring_char(dot_idx + 1, n);
        result.append(ext);
        proof {
            reveal_strlit(".");
            assert("."@ =~= seq!['.']);
            assert(result@ =~= change_file_name_spec(path@, name@));
        }
    } else {
        proof {
            assert(result@ =~= change_file_name_spec(path@, name@));
        }
    }
    result
}

/// The file name of `path` without its extension.
pub fn file_stem(path: &str) -> (r: String)
    ensures
        r@ == file_stem_of(path@),
{
    let (d, has_ext, dot_idx) = split_path(path);
    let n = path.unicode_len();
    let stem = if has_ext {
        path.substring_char(d, dot_idx)
    } else {
        path.substring_char(d, n)
    };
    proof {
        if has_ext {
            lemma_ext_dot_after_dir(path@);
        } else {
            lemma_dir_end_props(path@);
        }
        assert(stem@ =~= file_stem_of(path@));
    }
    String::from_str(stem)
}

proof fn lemma_ext_dot_after_dir(p: Seq<char>)
    requires
        ext_dot(p) >= 0,
    ensures
        dir_end(p) <= ext_dot(p) < p.len(),
    decreases p.len(),
{
    lemma_dir_end_props(p);
    if p.len() > 0 && p.last() != '/' {
        if p.last() == '.' && p.len() - 1 > dir_end(p) {
        } else {
            lemma_ext_dot_after_dir(p.drop_last());
            assert(dir_end(p.drop_last()) == dir_end(p));
        }
    }
}

} // verus!
