use vstd::prelude::*;

verus! {

/// The character of a decimal digit.
pub open spec fn digit_char(d: nat) -> char {
    if d == 0 { '0' }
    else if d == 1 { '1' }
    else if d == 2 { '2' }
    else if d == 3 { '3' }
    else if d == 4 { '4' }
    else if d == 5 { '5' }
    else if d == 6 { '6' }
    else if d == 7 { '7' }
    else if d == 8 { '8' }
    else { '9' }
}

/// The decimal text of a natural number, without leading zeros.
pub open spec fn decimal(n: nat) -> Seq<char>
    decreases n,
{
    if n < 10 {
        seq![digit_char(n)]
    } else {
        decimal(n / 10).push(digit_char(n % 10))
    }
}

/// The index of the last occurrence of `c` in `s`, or -1.
pub open spec fn last_index_of(s: Seq<char>, c: char) -> int
    decreases s.len(),
{
    if s.len() == 0 {
        -1
    } else if s.last() == c {
        s.len() - 1
    } else {
        last_index_of(s.drop_last(), c)
    }
}

/// A path without the separators and `.` components at its end, which do
/// not count as its last component; a lone `.` is dropped too.
pub open spec fn trim_end(p: Seq<char>) -> Seq<char>
    decreases p.len(),
{
    if p.len() > 0 && p.last() == '/' {
        trim_end(p.drop_last())
    } else if p =~= seq!['.'] {
        seq![]
    } else if p.len() >= 2 && p.last() == '.' && p[p.len() - 2] == '/' {
        trim_end(p.drop_last())
    } else {
        p
    }
}

/// The last component of a `/`-separated path, where it is a name: not
/// empty and not `..`.
pub open spec fn last_component(path: Seq<char>) -> Option<Seq<char>> {
    let t = trim_end(path);
    let tail = t.subrange(last_index_of(t, '/') + 1, t.len() as int);
    if tail.len() == 0 || tail =~= seq!['.', '.'] {
        None
    } else {
        Some(tail)
    }
}

/// The file name of a `/`-separated path, as `std::path::Path::file_name`
/// finds it on Unix (separators and `.` components at the end are skipped,
/// and a path ending in `..` has none), or the whole path where it has none.
pub open spec fn spec_filename(path: Seq<char>) -> Seq<char> {
    match last_component(path) {
        Some(name) => name,
        None => path,
    }
}

/// A file name without its extension: the part before the last `.`, unless
/// that `.` is the first character.
pub open spec fn spec_file_stem(name: Seq<char>) -> Seq<char> {
    let k = last_index_of(name, '.');
    if k > 0 {
        name.subrange(0, k)
    } else {
        name
    }
}

/// The message for a variable whose type cannot be worked out.
pub open spec fn cannot_determine_message(name: Seq<char>) -> Seq<char> {
    "Can't figure out the type of variable "@ + name
        + " given its context. Specify its type with a <<declare>> statement."@
}

proof fn lemma_last_index_of(s: Seq<char>, c: char, k: int)
    requires
        -1 <= k < s.len(),
        k >= 0 ==> s[k] == c,
        forall|j: int| k < j < s.len() ==> s[j] != c,
    ensures
        last_index_of(s, c) == k,
    decreases s.len(),
{
    if s.len() > 0 && s.last() != c {
        assert forall|j: int| k < j < s.drop_last().len() implies s.drop_last()[j] != c by {
            assert(s.drop_last()[j] == s[j]);
        }
        lemma_last_index_of(s.drop_last(), c, k);
    }
}

proof fn lemma_last_index_of_bounds(s: Seq<char>, c: char)
    ensures
        -1 <= last_index_of(s, c) < s.len(),
        last_index_of(s, c) >= 0 ==> s[last_index_of(s, c)] == c,
    decreases s.len(),
{
    if s.len() > 0 && s.last() != c {
        lemma_last_index_of_bounds(s.drop_last(), c);
    }
}

/// The text of one decimal digit.
fn digit_str(d: usize) -> (r: &'static str)
    requires
        d < 10,
    ensures
        r@ == seq![digit_char(d as nat)],
{
    proof {
        reveal_strlit("0");
        reveal_strlit("1");
        reveal_strlit("2");
        reveal_strlit("3");
        reveal_strlit("4");
        reveal_strlit("5");
        reveal_strlit("6");
        reveal_strlit("7");
        reveal_strlit("8");
        reveal_strlit("9");
    }
    let r = if d == 0 { "0" }
    else if d == 1 { "1" }
    else if d == 2 { "2" }
    else if d == 3 { "3" }
    else if d == 4 { "4" }
    else if d == 5 { "5" }
    else if d == 6 { "6" }
    else if d == 7 { "7" }
    else if d == 8 { "8" }
    else { "9" };
    assert(r@ =~= seq![digit_char(d as nat)]);
    r
}

/// Appends the decimal text of `n` to `s`.
pub fn push_decimal(s: &mut String, n: usize)
    ensures
        final(s)@ == old(s)@ + decimal(n as nat),
    decreases n,
{
    if n >= 10 {
        push_decimal(s, n / 10);
    }
    s.append(digit_str(n % 10));
    assert(final(s)@ =~= old(s)@ + decimal(n as nat));
}

/// The index of the last occurrence of `c` in `s`, if any.
pub fn find_last(s: &str, c: char) -> (r: Option<usize>)
    ensures
        r matches Some(k) ==> k as int == last_index_of(s@, c),
        r is None ==> last_index_of(s@, c) == -1,
{
    let len = s.unicode_len();
    let mut i: usize = len;
    while i > 0
        invariant
            i <= len,
            len == s@.len(),
            forall|j: int| i <= j < len ==> s@[j] != c,
        decreases i,
    {
        if s.get_char(i - 1) == c {
            proof {
                lemma_last_index_of(s@, c, i - 1);
            }
            return Some(i - 1);
        }
        i = i - 1;
    }
    proof {
        lemma_last_index_of(s@, c, -1);
    }
    None
}

/// The file name of a `/`-separated path, or the whole path where it has
/// none.
pub fn filename(path: &str) -> (r: String)
    ensures
        r@ == spec_filename(path@),
{
    let len = path.unicode_len();
    let mut e: usize = len;
    let mut done = false;
    assert(path@.subrange(0, len as int) =~= path@);
    while !done && e > 0
        invariant
            e <= len,
            len == path@.len(),
            trim_end(path@) == trim_end(path@.subrange(0, e as int)),
            done ==> trim_end(path@) == path@.subrange(0, e as int),
        decreases e, if done { 0int } else { 1int },
    {
        let ghost before = path@.subrange(0, e as int);
        let c = path.get_char(e - 1);
        if c == '/' {
            assert(before.drop_last() =~= path@.subrange(0, e - 1));
            e = e - 1;
        } else if e == 1 && c == '.' {
            assert(before =~= seq!['.']);
            assert(path@.subrange(0, 0) =~= Seq::<char>::empty());
            e = 0;
        } else if e >= 2 && c == '.' && path.get_char(e - 2) == '/' {
            assert(before.drop_last() =~= path@.subrange(0, e - 1));
            e = e - 1;
        } else {
            assert(!(before =~= seq!['.']));
            done = true;
        }
    }
    proof {
        if e == 0 {
            assert(path@.subrange(0, 0) =~= Seq::<char>::empty());
        }
    }
    let trimmed = path.substring_char(0, e);
    proof {
        lemma_last_index_of_bounds(trimmed@, '/');
    }
    let from: usize = match find_last(trimmed, '/') {
        Some(k) => k + 1,
        None => 0,
    };
    let tail = String::from_str(trimmed.substring_char(from, e));
    let dots = String::from_str("..");
    proof {
        reveal_strlit("..");
        assert(dots@ =~= seq!['.', '.']);
    }
    if from == e || tail == dots {
        String::from_str(path)
    } else {
        tail
    }
}

/// A file name without its extension.
pub fn file_stem(name: &str) -> (r: String)
    ensures
        r@ == spec_file_stem(name@),
{
    proof {
        lemma_last_index_of_bounds(name@, '.');
    }
    match find_last(name, '.') {
        Some(k) => {
            if k > 0 {
                String::from_str(name.substring_char(0, k))
            } else {
                String::from_str(name)
            }
        },
        None => String::from_str(name),
    }
}

/// The message for a variable whose type cannot be worked out from its
/// context.
pub fn format_cannot_determine_variable_type_error(name: &str) -> (r: String)
    ensures
        r@ == cannot_determine_message(name@),
{
    let mut r = String::from_str("Can't figure out the type of variable ");
    r.append(name);
    r.append(" given its context. Specify its type with a <<declare>> statement.");
    r
}

/// The words of a text: its maximal runs of characters other than spaces,
/// in order.
pub open spec fn spec_words(s: Seq<char>) -> Seq<Seq<char>>
    decreases s.len(),
{
    if s.len() == 0 {
        seq![]
    } else {
        let w = spec_words(s.drop_last());
        let c = s.last();
        if c == ' ' {
            w
        } else if s.len() >= 2 && s[s.len() - 2] != ' ' {
            w.update(w.len() - 1, w.last().push(c))
        } else {
            w.push(seq![c])
        }
    }
}

proof fn lemma_words_nonempty(s: Seq<char>)
    requires
        s.len() > 0,
        s.last() != ' ',
    ensures
        spec_words(s).len() > 0,
    decreases s.len(),
{
    if s.len() >= 2 && s[s.len() - 2] != ' ' {
        assert(s.drop_last().last() == s[s.len() - 2]);
        lemma_words_nonempty(s.drop_last());
    }
}

/// The texts of a list of strings.
pub open spec fn texts(v: Seq<String>) -> Seq<Seq<char>> {
    v.map_values(|w: String| w@)
}

/// The words of a text: its maximal runs of characters other than spaces,
/// in order.
pub fn split_words(s: &str) -> (r: Vec<String>)
    ensures
        texts(r@) == spec_words(s@),
{
    let len = s.unicode_len();
    let mut words: Vec<String> = Vec::new();
    let mut current = String::new();
    let mut i: usize = 0;
    while i < len
        invariant
            len == s@.len(),
            i <= len,
            current@.len() == 0 ==> texts(words@) == spec_words(s@.subrange(0, i as int)),
            current@.len() > 0 ==> spec_words(s@.subrange(0, i as int)).len() > 0
                && texts(words@) == spec_words(s@.subrange(0, i as int)).drop_last()
                && current@ == spec_words(s@.subrange(0, i as int)).last(),
            current@.len() > 0 <==> (i > 0 && s@[i - 1] != ' '),
        decreases len - i,
    {
        let ghost before = s@.subrange(0, i as int);
        let ghost next = s@.subrange(0, i + 1);
        proof {
            assert(next.drop_last() =~= before);
            assert(next.last() == s@[i as int]);
            if i > 0 {
                assert(next[next.len() - 2] == s@[i - 1]);
            }
        }
        let c = s.get_char(i);
        if c == ' ' {
            if current.as_str().unicode_len() > 0 {
                let ghost w = words@;
                words.push(current);
                current = String::new();
                proof {
                    assert(texts(words@) =~= texts(w).push(spec_words(before).last()));
                    assert(texts(w).push(spec_words(before).last()) =~= spec_words(before));
                }
            }
        } else {
            let ghost c0 = current@;
            current.append(s.substring_char(i, i + 1));
            proof {
                assert(s@.subrange(i as int, i + 1) =~= seq![c]);
                if c0.len() == 0 {
                    assert(texts(words@) =~= spec_words(next).drop_last());
                } else {
                    assert(texts(words@) =~= spec_words(next).drop_last());
                }
            }
        }
        i = i + 1;
    }
    proof {
        assert(s@.subrange(0, len as int) =~= s@);
    }
    if current.as_str().unicode_len() > 0 {
        let ghost w = words@;
        let ghost last = current@;
        words.push(current);
        proof {
            assert(texts(words@) =~= texts(w).push(last));
            assert(texts(w).push(last) =~= spec_words(s@));
        }
    }
    words
}

} // verus!
