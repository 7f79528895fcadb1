//! Object keys: file names, path components and the names used on disk.
use vstd::prelude::*;
use vstd::string::*;

verus! {

/// The part of `s` after its last '/', or all of `s` when it holds none.
pub open spec fn file_name_of(s: Seq<char>) -> Seq<char>
    decreases s.len(),
{
    if s.len() == 0 {
        s
    } else if s.last() == '/' {
        Seq::empty()
    } else {
        file_name_of(s.drop_last()).push(s.last())
    }
}

/// The pieces of `s` between its '/' characters, empty pieces included,
/// in order (as `str::split('/')` yields them).
pub open spec fn split_slash(s: Seq<char>) -> Seq<Seq<char>>
    decreases s.len(),
{
    if s.len() == 0 {
        seq![Seq::empty()]
    } else {
        let p = split_slash(s.drop_last());
        if s.last() == '/' {
            p.push(Seq::empty())
        } else {
            p.update(p.len() - 1, p.last().push(s.last()))
        }
    }
}

/// The non-empty pieces of `s` between its '/' characters.
pub open spec fn path_components(s: Seq<char>) -> Seq<Seq<char>> {
    split_slash(s).filter(|p: Seq<char>| p.len() > 0)
}

/// The suffix appended to a file while its download is in progress.
pub open spec fn downloading_suffix() -> Seq<char> {
    seq!['.', 'd', 'o', 'w', 'n', 'l', 'o', 'a', 'd', 'i', 'n', 'g']
}

pub proof fn lemma_split_slash_nonempty(s: Seq<char>)
    ensures
        split_slash(s).len() >= 1,
        split_slash(s).last() == file_name_of(s),
    decreases s.len(),
{
    if s.len() > 0 {
        lemma_split_slash_nonempty(s.drop_last());
    }
}

/// The file name of an object key: what follows its last '/'.
pub fn get_file_name(key: &str) -> (r: Result<&str, String>)
    ensures
        r is Ok,
        r matches Ok(name) ==> name@ == file_name_of(key@),
{
    let n = key.unicode_len();
    let mut start: usize = 0;
    let mut i: usize = 0;
    while i < n
        invariant
            n == key@.len(),
            start <= i <= n,
            file_name_of(key@.take(i as int)) == key@.subrange(start as int, i as int),
        decreases n - i,
    {
        let c = key.get_char(i);
        assert(key@.take(i + 1).drop_last() == key@.take(i as int));
        if c == '/' {
            start = i + 1;
        }
        i = i + 1;
        assert(file_name_of(key@.take(i as int)) =~= key@.subrange(start as int, i as int));
    }
    assert(key@.take(n as int) =~= key@);
    Ok(key.substring_char(start, n))
}


/// A view of a vector of strings as a sequence of character sequences.
pub open spec fn strings_view(v: Seq<String>) -> Seq<Seq<char>> {
    v.map_values(|s: String| s@)
}

proof fn lemma_filter_push_nonempty(s: Seq<Seq<char>>, e: Seq<char>)
    ensures
        s.push(e).filter(|p: Seq<char>| p.len() > 0) == (if e.len() > 0 {
            s.filter(|p: Seq<char>| p.len() > 0).push(e)
        } else {
            s.filter(|p: Seq<char>| p.len() > 0)
        }),
{
    s.lemma_filter_push(e, |p: Seq<char>| p.len() > 0);
}

/// The non-empty '/'-separated components of an object key, in order.
pub fn path_components_of(key: &str) -> (r: Vec<String>)
    ensures
        strings_view(r@) == path_components(key@),
{
    let n = key.unicode_len();
    let mut comps: Vec<String> = Vec::new();
    let mut start: usize = 0;
    let mut i: usize = 0;
    while i < n
        invariant
            n == key@.len(),
            start <= i <= n,
            split_slash(key@.take(i as int)).len() >= 1,
            split_slash(key@.take(i as int)).last() == key@.subrange(start as int, i as int),
            strings_view(comps@) == split_slash(key@.take(i as int)).drop_last().filter(
                |p: Seq<char>| p.len() > 0,
            ),
        decreases n - i,
    {
        let c = key.get_char(i);
        let ghost pre = split_slash(key@.take(i as int));
        assert(key@.take(i + 1).drop_last() == key@.take(i as int));
        assert(key@.take(i + 1).last() == c);
        if c == '/' {
            proof {
                lemma_filter_push_nonempty(pre.drop_last(), pre.last());
                assert(pre.drop_last().push(pre.last()) =~= pre);
            }
            if start < i {
                let piece = String::from_str(key.substring_char(start, i));
                comps.push(piece);
                assert(strings_view(comps@) =~= strings_view(comps@.drop_last()).push(piece@));
            }
            start = i + 1;
            assert(split_slash(key@.take(i + 1)) == pre.push(Seq::empty()));
            assert(split_slash(key@.take(i + 1)).drop_last() =~= pre);
        } else {
            assert(split_slash(key@.take(i + 1)).drop_last() =~= pre.drop_last());
        }
        i = i + 1;
        assert(split_slash(key@.take(i as int)).last() =~= key@.subrange(start as int, i as int));
    }
    assert(key@.take(n as int) =~= key@);
    let ghost all = split_slash(key@);
    proof {
        lemma_filter_push_nonempty(all.drop_last(), all.last());
        assert(all.drop_last().push(all.last()) =~= all);
    }
    if start < n {
        let piece = String::from_str(key.substring_char(start, n));
        comps.push(piece);
        assert(strings_view(comps@) =~= strings_view(comps@.drop_last()).push(piece@));
    }
    comps
}

/// Whether an object key names a folder: it ends with '/'.
pub fn is_folder_key(key: &str) -> (r: bool)
    ensures
        r == (key@.len() > 0 && key@.last() == '/'),
{
    let n = key.unicode_len();
    n > 0 && key.get_char(n - 1) == '/'
}

/// The name under which a download of `key` is written while it runs:
/// the key's file name followed by ".downloading".
pub fn downloading_file_name(key: &str) -> (r: String)
    ensures
        r@ == file_name_of(key@) + downloading_suffix(),
{
    let name = match get_file_name(key) {
        Ok(name) => name,
        Err(_) => key,
    };
    let mut r = String::from_str(name);
    r.append(".downloading");
    proof {
        reveal_strlit(".downloading");
    }
    assert(".downloading"@ =~= downloading_suffix());
    r
}

} // verus!
