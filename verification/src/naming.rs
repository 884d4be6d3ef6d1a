//! Names derived from other names: crate directories turned into enum
//! variants, machine names into constant names, segment types into variant
//! names; and collecting a list of results.

use vstd::prelude::*;
use crate::strs::{views, split_char, split_chars};
use crate::text::{chars_of, string_of};
use crate::error::debug_repr;

verus! {

/// The ASCII upper case of `c` (other characters are unchanged).
pub open spec fn ascii_upper(c: char) -> char {
    if 'a' <= c <= 'z' {
        ((c as u32) - 32) as char
    } else {
        c
    }
}

fn to_ascii_upper(c: char) -> (r: char)
    ensures
        r == ascii_upper(c),
{
    if 'a' <= c && c <= 'z' {
        ((c as u8) - 32) as char
    } else {
        c
    }
}

/// A word with its first character in upper case; an empty word stays empty.
pub open spec fn capitalized(w: Seq<char>) -> Seq<char> {
    if w.len() == 0 {
        w
    } else {
        seq![ascii_upper(w[0])] + w.drop_first()
    }
}

/// The concatenation of the capitalized words of `ws`.
pub open spec fn join_capitalized(ws: Seq<Seq<char>>) -> Seq<char>
    decreases ws.len(),
{
    if ws.len() == 0 {
        seq![]
    } else {
        join_capitalized(ws.drop_last()) + capitalized(ws.last())
    }
}

/// `snake_case` to `CamelCase`: the pieces between underscores, each with its
/// first character in upper case, joined.
pub open spec fn camel(name: Seq<char>) -> Seq<char> {
    join_capitalized(split_char(name, '_'))
}

proof fn lemma_join_capitalized_concat(x: Seq<Seq<char>>, y: Seq<Seq<char>>)
    ensures
        join_capitalized(x + y) == join_capitalized(x) + join_capitalized(y),
    decreases y.len(),
{
    if y.len() == 0 {
        assert(x + y =~= x);
        assert(join_capitalized(x) + join_capitalized(y) =~= join_capitalized(x));
    } else {
        lemma_join_capitalized_concat(x, y.drop_last());
        assert((x + y).drop_last() =~= x + y.drop_last());
        assert((x + y).last() == y.last());
        assert(join_capitalized(x) + join_capitalized(y) =~= join_capitalized(x) + join_capitalized(
            y.drop_last(),
        ) + capitalized(y.last()));
    }
}

/// The `CamelCase` form of two names joined by an underscore is the forms of
/// the two names, one after the other.
pub proof fn lemma_camel_concat(x: Seq<char>, y: Seq<char>)
    ensures
        camel(x + seq!['_'] + y) == camel(x) + camel(y),
{
    crate::strs::lemma_split_concat(x, y, '_');
    lemma_join_capitalized_concat(split_char(x, '_'), split_char(y, '_'));
}

/// Every piece between underscores starts with an ASCII character, so that its
/// first byte is a whole character.
pub open spec fn camel_convertible(name: Seq<char>) -> bool {
    let ws = split_char(name, '_');
    forall|i: int| 0 <= i < ws.len() && ws[i].len() > 0 ==> (#[trigger] ws[i][0] as u32) < 0x80
}

/// The `CamelCase` form of the `snake_case` name `name`.
pub fn camel_case(name: &str) -> (r: String)
    requires
        camel_convertible(name@),
    ensures
        r@ == camel(name@),
{
    let chars = chars_of(name);
    let ws = split_chars(chars.as_slice(), '_');
    let ghost wv = views(ws@);
    let mut out: Vec<char> = Vec::new();
    let mut i: usize = 0;
    while i < ws.len()
        invariant
            i <= ws@.len(),
            wv == views(ws@),
            out@ == join_capitalized(wv.take(i as int)),
        decreases ws@.len() - i,
    {
        assert(wv.take(i + 1).drop_last() =~= wv.take(i as int));
        assert(wv.take(i + 1).last() == wv[i as int]);
        let w = &ws[i];
        assert(w@ == wv[i as int]);
        let ghost before = out@;
        if w.len() > 0 {
            out.push(to_ascii_upper(w[0]));
            let mut k: usize = 1;
            while k < w.len()
                invariant
                    1 <= k <= w@.len(),
                    out@ == before + seq![ascii_upper(w@[0])] + w@.subrange(1, k as int),
                decreases w@.len() - k,
            {
                out.push(w[k]);
                k = k + 1;
            }
            assert(out@ =~= before + capitalized(w@));
        } else {
            assert(out@ =~= before + capitalized(w@));
        }
        i = i + 1;
    }
    assert(wv.take(ws@.len() as int) =~= wv);
    string_of(out.as_slice())
}

/// The components of a path that name something: the pieces between slashes
/// that are neither empty nor `.`.
pub open spec fn named_components(p: Seq<Seq<char>>) -> Seq<Seq<char>>
    decreases p.len(),
{
    if p.len() == 0 {
        seq![]
    } else if p.last().len() == 0 || p.last() == seq!['.'] {
        named_components(p.drop_last())
    } else {
        named_components(p.drop_last()).push(p.last())
    }
}

/// The last component of a path, as `Path::file_name` gives it: none when the
/// path has no component or ends in `..`.
pub open spec fn file_name(path: Seq<char>) -> Option<Seq<char>> {
    let cs = named_components(split_char(path, '/'));
    if cs.len() == 0 || cs.last() == seq!['.', '.'] {
        None
    } else {
        Some(cs.last())
    }
}

fn file_name_chars(path: &Vec<char>) -> (r: Option<Vec<char>>)
    ensures
        match file_name(path@) {
            Some(n) => r matches Some(v) && v@ == n,
            None => r is None,
        },
{
    let ps = split_chars(path.as_slice(), '/');
    let ghost pv = views(ps@);
    let mut last: Option<usize> = None;
    let ghost mut cs: Seq<Seq<char>> = seq![];
    let mut i: usize = 0;
    while i < ps.len()
        invariant
            i <= ps@.len(),
            pv == views(ps@),
            cs == named_components(pv.take(i as int)),
            match last {
                Some(j) => j < i && cs.len() > 0 && cs.last() == pv[j as int],
                None => cs.len() == 0,
            },
        decreases ps@.len() - i,
    {
        assert(pv.take(i + 1).drop_last() =~= pv.take(i as int));
        assert(pv.take(i + 1).last() == pv[i as int]);
        assert(ps[i as int]@ == pv[i as int]);
        let p = &ps[i];
        let is_dot = p.len() == 1 && p[0] == '.';
        assert(is_dot == (p@ == seq!['.'])) by {
            if p@.len() == 1 {
                assert(p@ == seq![p@[0]]);
            }
        }
        if p.len() > 0 && !is_dot {
            last = Some(i);
            proof {
                cs = cs.push(pv[i as int]);
            }
        }
        i = i + 1;
    }
    assert(pv.take(ps@.len() as int) =~= pv);
    match last {
        None => None,
        Some(j) => {
            let n = &ps[j];
            let dots = n.len() == 2 && n[0] == '.' && n[1] == '.';
            assert(dots == (n@ == seq!['.', '.'])) by {
                if n@.len() == 2 {
                    assert(n@ =~= seq![n@[0], n@[1]]);
                }
            }
            if dots {
                None
            } else {
                Some(crate::strs::copy_range(n.as_slice(), 0, n.len()))
            }
        },
    }
}

/// The message of a path without a last component.
pub open spec fn invalid_path_message(path: Seq<char>) -> Seq<char> {
    "invalid path: "@ + debug_repr(path)
}

/// The message for a path without a last component: `invalid path: ` and the
/// path in debug form.
pub fn invalid_path_error(path: &str) -> (m: String)
    ensures
        m@ == invalid_path_message(path@),
{
    let mut m = String::from_str("invalid path: ");
    let q = crate::error::debug_quoted(path);
    m.append(q.as_str());
    m
}

/// The name of the crate in directory `path`: the path's last component.
pub fn crate_name(path: &str) -> (r: Result<String, String>)
    ensures
        match file_name(path@) {
            Some(n) => r matches Ok(s) && s@ == n,
            None => r matches Err(m) && m@ == invalid_path_message(path@),
        },
{
    let chars = chars_of(path);
    match file_name_chars(&chars) {
        Some(n) => Ok(string_of(n.as_slice())),
        None => Err(invalid_path_error(path)),
    }
}

/// The directory path and the enum variant named after its crate.
pub open spec fn variant_of(path: Seq<char>) -> Option<(Seq<char>, Seq<char>)> {
    match file_name(path) {
        Some(n) => Some((path, camel(n))),
        None => None,
    }
}

/// Every path whose crate name is reached converts to `CamelCase`.
pub open spec fn paths_convertible(paths: Seq<Seq<char>>) -> bool {
    forall|i: int|
        0 <= i < paths.len() ==> (#[trigger] file_name(paths[i]) matches Some(n) ==> camel_convertible(n))
}

/// The first path without a last component, if any.
pub open spec fn first_invalid(paths: Seq<Seq<char>>) -> Option<int>
    decreases paths.len(),
{
    if paths.len() == 0 {
        None
    } else {
        match first_invalid(paths.drop_last()) {
            Some(i) => Some(i),
            None => if file_name(paths.last()) is None {
                Some(paths.len() - 1)
            } else {
                None
            },
        }
    }
}

/// For each crate directory, the path and the enum variant named after the
/// crate; the first path without a last component is the error.
pub fn path_variants(paths: &Vec<String>) -> (r: Result<Vec<(String, String)>, String>)
    requires
        paths_convertible(paths@.map_values(|p: String| p@)),
    ensures
        match first_invalid(paths@.map_values(|p: String| p@)) {
            Some(i) => r matches Err(m) && m@ == invalid_path_message(paths@[i]@),
            None => r matches Ok(v) && v@.len() == paths@.len() && forall|k: int|
                0 <= k < v@.len() ==> variant_of(paths@[k]@) == Some(
                    ((#[trigger] v@[k]).0@, v@[k].1@),
                ),
        },
{
    let ghost pv = paths@.map_values(|p: String| p@);
    let mut out: Vec<(String, String)> = Vec::new();
    let mut i: usize = 0;
    while i < paths.len()
        invariant
            i <= paths@.len(),
            pv == paths@.map_values(|p: String| p@),
            paths_convertible(pv),
            first_invalid(pv.take(i as int)) is None,
            out@.len() == i,
            forall|k: int|
                0 <= k < i ==> variant_of(paths@[k]@) == Some(((#[trigger] out@[k]).0@, out@[k].1@)),
        decreases paths@.len() - i,
    {
        assert(pv.take(i + 1).drop_last() =~= pv.take(i as int));
        assert(pv.take(i + 1).last() == pv[i as int]);
        assert(pv[i as int] == paths@[i as int]@);
        match crate_name(paths[i].as_str()) {
            Ok(n) => {
                assert(camel_convertible(n@)) by {
                    assert(file_name(pv[i as int]) matches Some(x) ==> camel_convertible(x));
                }
                let v = camel_case(n.as_str());
                let p = string_of(chars_of(paths[i].as_str()).as_slice());
                out.push((p, v));
            },
            Err(m) => {
                assert(first_invalid(pv.take(i + 1)) == Some(i as int));
                proof {
                    lemma_first_invalid_extends(pv, (i + 1) as nat);
                }
                return Err(m);
            },
        }
        i = i + 1;
    }
    assert(pv.take(paths@.len() as int) =~= pv);
    Ok(out)
}

proof fn lemma_first_invalid_extends(paths: Seq<Seq<char>>, k: nat)
    requires
        k <= paths.len(),
        first_invalid(paths.take(k as int)) is Some,
    ensures
        first_invalid(paths) == first_invalid(paths.take(k as int)),
    decreases paths.len() - k,
{
    if k < paths.len() {
        assert(paths.take(k as int + 1).drop_last() =~= paths.take(k as int));
        lemma_first_invalid_extends(paths, k + 1);
    } else {
        assert(paths.take(k as int) =~= paths);
    }
}

/// The machine constant name for a machine name: `EM_` and the name with ASCII
/// lower case letters in upper case and spaces as underscores.
pub open spec fn machine_const(machine: Seq<char>) -> Seq<char> {
    "EM_"@ + machine.map_values(
        |c: char|
            if 'a' <= c <= 'z' {
                ((c as u32) - 32) as char
            } else if c == ' ' {
                '_'
            } else {
                c
            },
    )
}

/// The name of the ELF header constant for the machine that `readelf` names.
pub fn machine_const_name(machine: &str) -> (r: String)
    ensures
        r@ == machine_const(machine@),
{
    let chars = chars_of(machine);
    let mut out: Vec<char> = Vec::new();
    out.push('E');
    out.push('M');
    out.push('_');
    proof {
        reveal_strlit("EM_");
    }
    let mut i: usize = 0;
    while i < chars.len()
        invariant
            i <= chars@.len(),
            out@ == "EM_"@ + chars@.take(i as int).map_values(
                |c: char|
                    if 'a' <= c <= 'z' {
                        ((c as u32) - 32) as char
                    } else if c == ' ' {
                        '_'
                    } else {
                        c
                    },
            ),
        decreases chars@.len() - i,
    {
        let c = chars[i];
        let d = if 'a' <= c && c <= 'z' {
            ((c as u8) - 32) as char
        } else if c == ' ' {
            '_'
        } else {
            c
        };
        out.push(d);
        assert(chars@.take(i + 1) =~= chars@.take(i as int).push(c));
        i = i + 1;
    }
    assert(chars@.take(chars@.len() as int) =~= chars@);
    string_of(out.as_slice())
}

/// The character that `(c as u8 - b'A' + b'a') as char` gives.
pub open spec fn shifted_lower(c: char) -> char {
    ((c as u32 % 256) + 32) as char
}

/// A word of a segment type: its first character, then the others shifted
/// from upper to lower case.
pub open spec fn type_word(w: Seq<char>) -> Seq<char> {
    if w.len() == 0 {
        w
    } else {
        seq![w[0]] + w.drop_first().map_values(|c: char| shifted_lower(c))
    }
}

/// The concatenation of the converted words of `ws`.
pub open spec fn join_type_words(ws: Seq<Seq<char>>) -> Seq<char>
    decreases ws.len(),
{
    if ws.len() == 0 {
        seq![]
    } else {
        join_type_words(ws.drop_last()) + type_word(ws.last())
    }
}

/// The variant name of a segment type such as `GNU_STACK` (`GnuStack`).
pub open spec fn type_ident(ty: Seq<char>) -> Seq<char> {
    join_type_words(split_char(ty, '_'))
}

/// Every character but the first of each word has a low byte between `A` and
/// 223, so that the shift to lower case neither underflows nor overflows.
pub open spec fn type_ident_convertible(ty: Seq<char>) -> bool {
    let ws = split_char(ty, '_');
    forall|i: int, k: int|
        0 <= i < ws.len() && 1 <= k < ws[i].len() ==> 65 <= (#[trigger] ws[i][k] as u32) % 256
            <= 223
}

/// The name of the program header type variant for a segment type of the
/// report: the words between underscores, each with its first character kept
/// and the others in lower case, joined.
pub fn program_header_type_ident(ty: &str) -> (r: String)
    requires
        type_ident_convertible(ty@),
    ensures
        r@ == type_ident(ty@),
{
    let chars = chars_of(ty);
    let ws = split_chars(chars.as_slice(), '_');
    let ghost wv = views(ws@);
    let mut out: Vec<char> = Vec::new();
    let mut i: usize = 0;
    while i < ws.len()
        invariant
            i <= ws@.len(),
            wv == views(ws@),
            wv == split_char(ty@, '_'),
            type_ident_convertible(ty@),
            out@ == join_type_words(wv.take(i as int)),
        decreases ws@.len() - i,
    {
        assert(wv.take(i + 1).drop_last() =~= wv.take(i as int));
        assert(wv.take(i + 1).last() == wv[i as int]);
        let w = &ws[i];
        assert(w@ == wv[i as int]);
        let ghost before = out@;
        if w.len() > 0 {
            out.push(w[0]);
            let mut k: usize = 1;
            while k < w.len()
                invariant
                    1 <= k <= w@.len(),
                    w@ == wv[i as int],
                    i < wv.len(),
                    forall|k2: int|
                        1 <= k2 < w@.len() ==> 65 <= (#[trigger] w@[k2] as u32) % 256 <= 223,
                    out@ == before + seq![w@[0]] + w@.subrange(1, k as int).map_values(
                        |c: char| shifted_lower(c),
                    ),
                decreases w@.len() - k,
            {
                let c = w[k];
                let b = (c as u32 % 256) as u8;
                let d = ((b - 65) + 97) as char;
                assert(d == shifted_lower(c));
                out.push(d);
                assert(w@.subrange(1, k + 1) =~= w@.subrange(1, k as int).push(c));
                k = k + 1;
            }
            assert(w@.subrange(1, w@.len() as int) =~= w@.drop_first());
            assert(out@ =~= before + type_word(w@));
        } else {
            assert(out@ =~= before + type_word(w@));
        }
        i = i + 1;
    }
    assert(wv.take(ws@.len() as int) =~= wv);
    string_of(out.as_slice())
}

/// The values of a list of results, or its first error.
pub open spec fn collected<T, E>(s: Seq<Result<T, E>>) -> Result<Seq<T>, E>
    decreases s.len(),
{
    if s.len() == 0 {
        Ok(seq![])
    } else {
        match s[0] {
            Err(e) => Err(e),
            Ok(x) => match collected(s.drop_first()) {
                Ok(xs) => Ok(seq![x] + xs),
                Err(e) => Err(e),
            },
        }
    }
}

/// Collects a list of results into the list of their values, or the first error.
pub fn try_collect<T, E>(v: Vec<Result<T, E>>) -> (r: Result<Vec<T>, E>)
    ensures
        match collected(v@) {
            Ok(xs) => r matches Ok(out) && out@ == xs,
            Err(e) => r matches Err(e2) && e2 == e,
        },
{
    let ghost orig = v@;
    let mut rest = v;
    let mut out: Vec<T> = Vec::new();
    while rest.len() > 0
        invariant
            orig == v@,
            collected(orig) == match collected(rest@) {
                Ok(xs) => Ok(out@ + xs),
                Err(e) => Err::<Seq<T>, E>(e),
            },
        decreases rest@.len(),
    {
        let ghost before = rest@;
        let first = rest.remove(0);
        assert(rest@ =~= before.drop_first());
        match first {
            Ok(x) => {
                let ghost o = out@;
                out.push(x);
                assert(out@ =~= o.push(x));
                assert(forall|xs: Seq<T>| o + (seq![x] + xs) =~= o.push(x) + xs);
            },
            Err(e) => {
                assert(before[0] == Err::<T, E>(e));
                assert(collected(before) == Err::<Seq<T>, E>(e));
                return Err(e);
            },
        }
    }
    assert(out@ + seq![] =~= out@);
    Ok(out)
}

} // verus!
