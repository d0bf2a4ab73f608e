//! Default output path: the input's file name, with its extension
//! replaced by `.ipynb`, placed in the current directory.

use vstd::prelude::*;
use vstd::string::*;

verus! {

/// Everything after the last occurrence of `c`, or all of `s` if `c`
/// does not occur.
pub open spec fn after_last(s: Seq<char>, c: char) -> Seq<char>
    decreases s.len(),
{
    if s.len() == 0 {
        s
    } else if s.last() == c {
        Seq::empty()
    } else {
        after_last(s.drop_last(), c).push(s.last())
    }
}

/// The prefix before the last occurrence of `c`; meaningful only when
/// `c` occurs in `s`.
pub open spec fn before_last(s: Seq<char>, c: char) -> Seq<char>
    decreases s.len(),
{
    if s.len() == 0 {
        s
    } else if s.last() == c {
        s.drop_last()
    } else {
        before_last(s.drop_last(), c)
    }
}

/// The final path component: everything after the last `/`.
pub open spec fn file_name_of(path: Seq<char>) -> Seq<char> {
    after_last(path, '/')
}

/// The file stem: the name up to its last dot, unless that prefix would
/// be empty, in which case the whole name is the stem.
pub open spec fn stem_of(name: Seq<char>) -> Seq<char> {
    if name.contains('.') && before_last(name, '.').len() > 0 {
        before_last(name, '.')
    } else {
        name
    }
}

/// The default output path derived from an input path.
pub open spec fn default_output_of(path: Seq<char>) -> Seq<char> {
    "./"@ + stem_of(file_name_of(path)) + ".ipynb"@
}

proof fn lemma_after_last_found(s: Seq<char>, c: char, k: int)
    requires
        0 <= k < s.len(),
        s[k] == c,
        forall|j: int| k < j < s.len() ==> s[j] != c,
    ensures
        after_last(s, c) == s.skip(k + 1),
    decreases s.len(),
{
    if k == s.len() - 1 {
        assert(s.skip(k + 1) =~= Seq::<char>::empty());
    } else {
        let d = s.drop_last();
        assert(forall|j: int| k < j < d.len() ==> d[j] != c);
        lemma_after_last_found(d, c, k);
        assert(d.skip(k + 1).push(s.last()) =~= s.skip(k + 1));
    }
}

proof fn lemma_after_last_absent(s: Seq<char>, c: char)
    requires
        forall|j: int| 0 <= j < s.len() ==> s[j] != c,
    ensures
        after_last(s, c) == s,
    decreases s.len(),
{
    if s.len() > 0 {
        let d = s.drop_last();
        lemma_after_last_absent(d, c);
        assert(d.push(s.last()) =~= s);
    }
}

proof fn lemma_before_last_found(s: Seq<char>, c: char, k: int)
    requires
        0 <= k < s.len(),
        s[k] == c,
        forall|j: int| k < j < s.len() ==> s[j] != c,
    ensures
        before_last(s, c) == s.take(k),
    decreases s.len(),
{
    if k == s.len() - 1 {
        assert(s.drop_last() =~= s.take(k));
    } else {
        let d = s.drop_last();
        assert(forall|j: int| k < j < d.len() ==> d[j] != c);
        lemma_before_last_found(d, c, k);
        assert(d.take(k) =~= s.take(k));
    }
}

/// Derives the default output path: `./` plus the input's file stem plus
/// `.ipynb`.  The input must name a plain file: nonempty, not ending in
/// a separator, and its final component neither `.` nor `..`.
pub fn default_output_path(input_path: &str) -> (r: String)
    requires
        input_path@.len() > 0,
        input_path@.last() != '/',
        file_name_of(input_path@) != "."@,
        file_name_of(input_path@) != ".."@,
    ensures
        r@ == default_output_of(input_path@),
{
    let n = input_path.unicode_len();
    let mut start: usize = n;
    while start > 0 && input_path.get_char(start - 1) != '/'
        invariant
            n == input_path@.len(),
            0 <= start <= n,
            forall|j: int| start <= j < n ==> input_path@[j] != '/',
        decreases start,
    {
        start = start - 1;
    }
    let name = input_path.substring_char(start, n);
    proof {
        if start > 0 {
            lemma_after_last_found(input_path@, '/', start as int - 1);
        } else {
            lemma_after_last_absent(input_path@, '/');
        }
        assert(input_path@.subrange(start as int, n as int) =~= input_path@.skip(start as int));
        assert(name@ == file_name_of(input_path@));
    }
    let m = name.unicode_len();
    let mut dot: usize = m;
    while dot > 0 && name.get_char(dot - 1) != '.'
        invariant
            m == name@.len(),
            0 <= dot <= m,
            forall|j: int| dot <= j < m ==> name@[j] != '.',
        decreases dot,
    {
        dot = dot - 1;
    }
    let stem: &str = if dot == 0 {
        proof {
            assert(!name@.contains('.'));
        }
        name
    } else if dot == 1 {
        proof {
            lemma_before_last_found(name@, '.', 0);
            assert(name@.take(0) =~= Seq::<char>::empty());
        }
        name
    } else {
        proof {
            lemma_before_last_found(name@, '.', dot as int - 1);
            assert(name@[dot as int - 1] == '.');
            assert(name@.contains('.'));
            assert(name@.take(dot as int - 1) =~= name@.subrange(0, dot as int - 1));
        }
        name.substring_char(0, dot - 1)
    };
    let mut r = String::from_str("./");
    r.append(stem);
    r.append(".ipynb");
    r
}

} // verus!
