//! Character-level string helpers with exact specifications over `Seq<char>`.
use vstd::prelude::*;

verus! {

/// `String::push` appends one character to the end of the string.
pub assume_specification[ String::push ](s: &mut String, ch: char)
    ensures
        final(s)@ == old(s)@.push(ch),
;

/// Unicode `White_Space` (the set that `char::is_whitespace` and `str::trim` use).
pub open spec fn is_white_space(c: char) -> bool {
    let n = c as u32;
    ||| 0x9 <= n <= 0xD
    ||| n == 0x20
    ||| n == 0x85
    ||| n == 0xA0
    ||| n == 0x1680
    ||| 0x2000 <= n <= 0x200A
    ||| n == 0x2028
    ||| n == 0x2029
    ||| n == 0x202F
    ||| n == 0x205F
    ||| n == 0x3000
}

/// Drops leading white space.
pub open spec fn trim_start_spec(s: Seq<char>) -> Seq<char>
    decreases s.len(),
{
    if s.len() > 0 && is_white_space(s[0]) {
        trim_start_spec(s.drop_first())
    } else {
        s
    }
}

/// Drops trailing white space.
pub open spec fn trim_end_spec(s: Seq<char>) -> Seq<char>
    decreases s.len(),
{
    if s.len() > 0 && is_white_space(s.last()) {
        trim_end_spec(s.drop_last())
    } else {
        s
    }
}

/// Drops leading and trailing white space, as `str::trim` does.
pub open spec fn trim_spec(s: Seq<char>) -> Seq<char> {
    trim_end_spec(trim_start_spec(s))
}

/// First position at or after `i` that holds `c`.
pub open spec fn find_from(s: Seq<char>, c: char, i: int) -> Option<int>
    decreases s.len() - i,
{
    if i < 0 || i >= s.len() {
        None
    } else if s[i] == c {
        Some(i)
    } else {
        find_from(s, c, i + 1)
    }
}

/// First position of `c` in `s`.
pub open spec fn first_index_of(s: Seq<char>, c: char) -> Option<int> {
    find_from(s, c, 0)
}

/// Last position before `j` that holds `c`.
pub open spec fn rfind_before(s: Seq<char>, c: char, j: int) -> Option<int>
    decreases j,
{
    if j <= 0 || j > s.len() {
        None
    } else if s[j - 1] == c {
        Some(j - 1)
    } else {
        rfind_before(s, c, j - 1)
    }
}

/// Last position of `c` in `s`.
pub open spec fn last_index_of(s: Seq<char>, c: char) -> Option<int> {
    rfind_before(s, c, s.len() as int)
}

/// `s` begins with `p`.
pub open spec fn has_prefix(s: Seq<char>, p: Seq<char>) -> bool {
    p.len() <= s.len() && s.subrange(0, p.len() as int) == p
}

/// Every character of the text is ASCII.
pub open spec fn is_ascii_text(s: Seq<char>) -> bool {
    forall|i: int| 0 <= i < s.len() ==> (s[i] as u32) < 128
}

/// A character with 'A'..='Z' mapped to 'a'..='z'.
pub open spec fn ascii_lower_char(c: char) -> char {
    if 'A' <= c && c <= 'Z' {
        ((c as u32) + 32) as char
    } else {
        c
    }
}

/// A text with 'A'..='Z' mapped to 'a'..='z' and every other character kept.
pub open spec fn ascii_lower(s: Seq<char>) -> Seq<char> {
    Seq::new(s.len(), |i: int| ascii_lower_char(s[i]))
}

/// Every `from` in `s` replaced by `to`.
pub open spec fn replace_char_spec(s: Seq<char>, from: char, to: char) -> Seq<char> {
    Seq::new(s.len(), |i: int| if s[i] == from { to } else { s[i] })
}

/// The parts joined, with `sep` between neighbours.
pub open spec fn join_spec(parts: Seq<Seq<char>>, sep: Seq<char>) -> Seq<char>
    decreases parts.len(),
{
    if parts.len() == 0 {
        Seq::empty()
    } else if parts.len() == 1 {
        parts[0]
    } else {
        join_spec(parts.drop_last(), sep) + sep + parts.last()
    }
}

/// A line without its `'\n'`: one `'\r'` before the `'\n'` is dropped too.
pub open spec fn strip_cr(line: Seq<char>) -> Seq<char> {
    if line.len() > 0 && line.last() == '\r' {
        line.drop_last()
    } else {
        line
    }
}

/// The lines of a text, as `str::lines` yields them: split at `'\n'`, a
/// `'\r'` right before a `'\n'` is dropped, and a final line ending adds no
/// empty line.
pub open spec fn lines_spec(s: Seq<char>) -> Seq<Seq<char>>
    decreases s.len(),
{
    if s.len() == 0 {
        Seq::empty()
    } else {
        match first_index_of(s, '\n') {
            None => seq![s],
            Some(i) => {
                if 0 <= i < s.len() {
                    seq![strip_cr(s.subrange(0, i))] + lines_spec(s.subrange(i + 1, s.len() as int))
                } else {
                    Seq::empty()
                }
            },
        }
    }
}

/// The views of a sequence of strings.
pub open spec fn views(v: Seq<String>) -> Seq<Seq<char>> {
    Seq::new(v.len(), |i: int| v[i]@)
}

pub proof fn lemma_find_from_props(s: Seq<char>, c: char, i: int)
    requires
        0 <= i,
    ensures
        find_from(s, c, i) matches Some(k) ==> i <= k < s.len() && s[k] == c && forall|j: int|
            i <= j < k ==> s[j] != c,
        find_from(s, c, i) is None ==> forall|j: int| i <= j < s.len() ==> s[j] != c,
    decreases s.len() - i,
{
    if i < s.len() && s[i] != c {
        lemma_find_from_props(s, c, i + 1);
    }
}

pub proof fn lemma_first_index_props(s: Seq<char>, c: char)
    ensures
        first_index_of(s, c) matches Some(k) ==> 0 <= k < s.len() && s[k] == c && forall|j: int|
            0 <= j < k ==> s[j] != c,
        first_index_of(s, c) is None ==> forall|j: int| 0 <= j < s.len() ==> s[j] != c,
{
    lemma_find_from_props(s, c, 0);
}

pub proof fn lemma_rfind_before_props(s: Seq<char>, c: char, j: int)
    requires
        j <= s.len(),
    ensures
        rfind_before(s, c, j) matches Some(k) ==> 0 <= k < j && s[k] == c && forall|m: int|
            k < m < j ==> s[m] != c,
        rfind_before(s, c, j) is None ==> forall|m: int| 0 <= m < j ==> s[m] != c,
    decreases j,
{
    if j > 0 && s[j - 1] != c {
        lemma_rfind_before_props(s, c, j - 1);
    }
}

pub proof fn lemma_last_index_props(s: Seq<char>, c: char)
    ensures
        last_index_of(s, c) matches Some(k) ==> 0 <= k < s.len() && s[k] == c && forall|m: int|
            k < m < s.len() ==> s[m] != c,
        last_index_of(s, c) is None ==> forall|m: int| 0 <= m < s.len() ==> s[m] != c,
{
    lemma_rfind_before_props(s, c, s.len() as int);
}

/// A characterisation of the first position: it holds `c` and none before it does.
pub proof fn lemma_first_index_unique(s: Seq<char>, c: char, k: int)
    requires
        0 <= k < s.len(),
        s[k] == c,
        forall|j: int| 0 <= j < k ==> s[j] != c,
    ensures
        first_index_of(s, c) == Some(k),
{
    lemma_first_index_props(s, c);
    if let Some(k2) = first_index_of(s, c) {
        assert(k2 == k);
    }
}

/// A characterisation of the last position: it holds `c` and none after it does.
pub proof fn lemma_last_index_unique(s: Seq<char>, c: char, k: int)
    requires
        0 <= k < s.len(),
        s[k] == c,
        forall|m: int| k < m < s.len() ==> s[m] != c,
    ensures
        last_index_of(s, c) == Some(k),
{
    lemma_last_index_props(s, c);
    if let Some(k2) = last_index_of(s, c) {
        assert(k2 == k);
    }
}

/// No occurrence of `c` means no first position.
pub proof fn lemma_first_index_none(s: Seq<char>, c: char)
    requires
        forall|j: int| 0 <= j < s.len() ==> s[j] != c,
    ensures
        first_index_of(s, c) is None,
{
    lemma_first_index_props(s, c);
}

/// No occurrence of `c` means no last position.
pub proof fn lemma_last_index_none(s: Seq<char>, c: char)
    requires
        forall|j: int| 0 <= j < s.len() ==> s[j] != c,
    ensures
        last_index_of(s, c) is None,
{
    lemma_last_index_props(s, c);
}

/// A join of two or more parts is the first part, the separator, and the join of the rest.
pub proof fn lemma_join_front(parts: Seq<Seq<char>>, sep: Seq<char>)
    requires
        parts.len() >= 2,
    ensures
        join_spec(parts, sep) == parts[0] + sep + join_spec(parts.drop_first(), sep),
    decreases parts.len(),
{
    let init = parts.drop_last();
    let tail = parts.drop_first();
    if parts.len() == 2 {
        assert(init.len() == 1 && init[0] == parts[0]);
        assert(join_spec(init, sep) == parts[0]);
        assert(tail.len() == 1 && tail[0] == parts[1]);
        assert(join_spec(tail, sep) == parts[1]);
        assert(parts.last() == parts[1]);
    } else {
        lemma_join_front(init, sep);
        assert(init.drop_first() =~= tail.drop_last());
        assert(tail.last() == parts.last());
        assert(init[0] == parts[0]);
        let j = join_spec(init.drop_first(), sep);
        assert(join_spec(tail, sep) == j + sep + parts.last());
        assert(join_spec(parts, sep) == (parts[0] + sep + j) + sep + parts.last());
        assert((parts[0] + sep + j) + sep + parts.last() =~= parts[0] + sep + (j + sep
            + parts.last()));
    }
}

/// Text made of lines joined by '\n' splits back into those lines, when no
/// line is empty, holds a '\n', or ends with '\r'.
pub proof fn lemma_lines_of_join(parts: Seq<Seq<char>>)
    requires
        forall|i: int|
            0 <= i < parts.len() ==> (#[trigger] parts[i]).len() > 0 && !parts[i].contains('\n')
                && parts[i].last() != '\r',
    ensures
        lines_spec(join_spec(parts, "\n"@)) == parts,
    decreases parts.len(),
{
    reveal_strlit("\n");
    if parts.len() == 0 {
        assert(lines_spec(Seq::<char>::empty()) == Seq::<Seq<char>>::empty());
        assert(parts =~= Seq::<Seq<char>>::empty());
    } else if parts.len() == 1 {
        let p = parts[0];
        assert(forall|j: int| 0 <= j < p.len() ==> p[j] != '\n');
        lemma_first_index_none(p, '\n');
        assert(parts =~= seq![p]);
    } else {
        let p = parts[0];
        let rest = parts.drop_first();
        lemma_join_front(parts, "\n"@);
        lemma_lines_of_join(rest);
        let r = join_spec(rest, "\n"@);
        let s = p + "\n"@ + r;
        assert(forall|j: int| 0 <= j < p.len() ==> p[j] != '\n');
        assert(s[p.len() as int] == '\n');
        assert forall|j: int| 0 <= j < p.len() implies s[j] != '\n' by {
            assert(s[j] == p[j]);
        }
        lemma_first_index_unique(s, '\n', p.len() as int);
        assert(s.subrange(0, p.len() as int) =~= p);
        assert(s.subrange(p.len() as int + 1, s.len() as int) =~= r);
        assert(strip_cr(p) == p);
        assert(parts =~= seq![p] + rest);
    }
}

/// The characters of `s`, in order.
pub fn chars_of(s: &str) -> (v: Vec<char>)
    ensures
        v@ == s@,
{
    let mut v: Vec<char> = Vec::new();
    for c in it: s.chars()
        invariant
            v@ == it.seq().take(it.index() as int),
    {
        v.push(c);
    }
    v
}

/// The string made of `v[from..to]`.
pub fn string_from_chars(v: &Vec<char>, from: usize, to: usize) -> (s: String)
    requires
        from <= to <= v.len(),
    ensures
        s@ == v@.subrange(from as int, to as int),
{
    let mut s = String::new();
    let mut i = from;
    while i < to
        invariant
            from <= i <= to <= v.len(),
            s@ == v@.subrange(from as int, i as int),
        decreases to - i,
    {
        s.push(v[i]);
        i = i + 1;
        assert(s@ =~= v@.subrange(from as int, i as int));
    }
    s
}

/// A copy of `s`.
pub fn copy_str(s: &str) -> (r: String)
    ensures
        r@ == s@,
{
    let v = chars_of(s);
    string_from_chars(&v, 0, v.len())
}

/// Whether `c` is Unicode white space.
pub fn is_white_space_char(c: char) -> (b: bool)
    ensures
        b == is_white_space(c),
{
    let n = c as u32;
    (0x9 <= n && n <= 0xD) || n == 0x20 || n == 0x85 || n == 0xA0 || n == 0x1680 || (0x2000 <= n
        && n <= 0x200A) || n == 0x2028 || n == 0x2029 || n == 0x202F || n == 0x205F || n == 0x3000
}

/// Bounds `(i, j)` such that `v[i..j]` is `v` with surrounding white space removed.
pub fn trim_bounds(v: &Vec<char>) -> (r: (usize, usize))
    ensures
        r.0 <= r.1 <= v.len(),
        v@.subrange(r.0 as int, r.1 as int) == trim_spec(v@),
{
    let len = v.len();
    let mut i: usize = 0;
    assert(v@.subrange(0, len as int) =~= v@);
    while i < len && is_white_space_char(v[i])
        invariant
            i <= len == v.len(),
            trim_start_spec(v@) == trim_start_spec(v@.subrange(i as int, len as int)),
        decreases len - i,
    {
        assert(v@.subrange(i as int, len as int).drop_first() =~= v@.subrange(
            i + 1,
            len as int,
        ));
        i = i + 1;
    }
    assert(trim_start_spec(v@) == v@.subrange(i as int, len as int));
    let mut j: usize = len;
    while j > i && is_white_space_char(v[j - 1])
        invariant
            i <= j <= len == v.len(),
            trim_start_spec(v@) == v@.subrange(i as int, len as int),
            trim_spec(v@) == trim_end_spec(v@.subrange(i as int, j as int)),
        decreases j - i,
    {
        assert(v@.subrange(i as int, j as int).drop_last() =~= v@.subrange(i as int, j - 1));
        j = j - 1;
    }
    (i, j)
}

/// `s` without leading and trailing white space, as `str::trim` gives it.
pub fn trim(s: &str) -> (r: String)
    ensures
        r@ == trim_spec(s@),
{
    let v = chars_of(s);
    let (i, j) = trim_bounds(&v);
    string_from_chars(&v, i, j)
}

/// First position of `c` in `v`.
pub fn find_char(v: &Vec<char>, c: char) -> (r: Option<usize>)
    ensures
        r matches Some(k) ==> first_index_of(v@, c) == Some(k as int),
        r is None ==> first_index_of(v@, c) is None,
{
    let mut i: usize = 0;
    while i < v.len()
        invariant
            i <= v.len(),
            first_index_of(v@, c) == find_from(v@, c, i as int),
        decreases v.len() - i,
    {
        if v[i] == c {
            return Some(i);
        }
        i = i + 1;
    }
    None
}

/// Last position of `c` in `v`.
pub fn rfind_char(v: &Vec<char>, c: char) -> (r: Option<usize>)
    ensures
        r matches Some(k) ==> last_index_of(v@, c) == Some(k as int),
        r is None ==> last_index_of(v@, c) is None,
{
    let mut j: usize = v.len();
    while j > 0
        invariant
            j <= v.len(),
            last_index_of(v@, c) == rfind_before(v@, c, j as int),
        decreases j,
    {
        if v[j - 1] == c {
            return Some(j - 1);
        }
        j = j - 1;
    }
    None
}

/// Whether `v` holds `c`.
pub fn contains_char(v: &Vec<char>, c: char) -> (b: bool)
    ensures
        b == v@.contains(c),
{
    let r = find_char(v, c);
    proof {
        lemma_first_index_props(v@, c);
    }
    r.is_some()
}

/// Whether `v` begins with `p`.
pub fn starts_with_chars(v: &Vec<char>, p: &Vec<char>) -> (b: bool)
    ensures
        b == has_prefix(v@, p@),
{
    if p.len() > v.len() {
        return false;
    }
    let mut i: usize = 0;
    while i < p.len()
        invariant
            i <= p.len() <= v.len(),
            forall|k: int| 0 <= k < i ==> v@[k] == p@[k],
        decreases p.len() - i,
    {
        if v[i] != p[i] {
            assert(v@.subrange(0, p.len() as int)[i as int] != p@[i as int]);
            return false;
        }
        i = i + 1;
    }
    assert(v@.subrange(0, p.len() as int) =~= p@);
    true
}

/// Whether two character sequences are equal.
pub fn chars_equal(a: &Vec<char>, b: &Vec<char>) -> (r: bool)
    ensures
        r == (a@ == b@),
{
    if a.len() != b.len() {
        return false;
    }
    let mut i: usize = 0;
    while i < a.len()
        invariant
            i <= a.len() == b.len(),
            forall|k: int| 0 <= k < i ==> a@[k] == b@[k],
        decreases a.len() - i,
    {
        if a[i] != b[i] {
            return false;
        }
        i = i + 1;
    }
    assert(a@ =~= b@);
    true
}

/// Whether two strings are equal.
pub fn str_equal(a: &str, b: &str) -> (r: bool)
    ensures
        r == (a@ == b@),
{
    let va = chars_of(a);
    let vb = chars_of(b);
    chars_equal(&va, &vb)
}

/// `s` with every `from` replaced by `to`.
pub fn replace_char(s: &str, from: char, to: char) -> (r: String)
    ensures
        r@ == replace_char_spec(s@, from, to),
{
    let v = chars_of(s);
    let mut r = String::new();
    let mut i: usize = 0;
    while i < v.len()
        invariant
            i <= v.len(),
            v@ == s@,
            r@ == replace_char_spec(s@, from, to).subrange(0, i as int),
        decreases v.len() - i,
    {
        let c = v[i];
        if c == from {
            r.push(to);
        } else {
            r.push(c);
        }
        i = i + 1;
        assert(r@ =~= replace_char_spec(s@, from, to).subrange(0, i as int));
    }
    assert(r@ =~= replace_char_spec(s@, from, to));
    r
}

/// `a` followed by `b`.
pub fn concat(a: &str, b: &str) -> (r: String)
    ensures
        r@ == a@ + b@,
{
    let mut r = copy_str(a);
    let v = chars_of(b);
    let mut i: usize = 0;
    while i < v.len()
        invariant
            i <= v.len(),
            v@ == b@,
            r@ == a@ + b@.subrange(0, i as int),
        decreases v.len() - i,
    {
        r.push(v[i]);
        i = i + 1;
        assert(r@ =~= a@ + b@.subrange(0, i as int));
    }
    assert(b@.subrange(0, v.len() as int) =~= b@);
    r
}

/// The strings joined with `sep` between neighbours.
pub fn join(parts: &Vec<String>, sep: &str) -> (r: String)
    ensures
        r@ == join_spec(views(parts@), sep@),
{
    let mut r = String::new();
    let mut i: usize = 0;
    while i < parts.len()
        invariant
            i <= parts.len(),
            r@ == join_spec(views(parts@).take(i as int), sep@),
        decreases parts.len() - i,
    {
        assert(views(parts@).take(i + 1).drop_last() =~= views(parts@).take(i as int));
        if i == 0 {
            r = copy_str(parts[i].as_str());
        } else {
            let with_sep = concat(r.as_str(), sep);
            r = concat(with_sep.as_str(), parts[i].as_str());
        }
        i = i + 1;
    }
    assert(views(parts@).take(parts.len() as int) =~= views(parts@));
    r
}

/// The lines of `s`, as `str::lines` yields them.
pub fn lines(s: &str) -> (r: Vec<String>)
    ensures
        views(r@) == lines_spec(s@),
{
    let v = chars_of(s);
    let len = v.len();
    let mut r: Vec<String> = Vec::new();
    let mut start: usize = 0;
    assert(v@.subrange(0, len as int) =~= v@);
    while start < len
        invariant
            start <= len == v.len(),
            v@ == s@,
            lines_spec(s@) == views(r@) + lines_spec(v@.subrange(start as int, len as int)),
        decreases len - start,
    {
        let ghost rest = v@.subrange(start as int, len as int);
        let mut i: usize = start;
        while i < len && v[i] != '\n'
            invariant
                start <= i <= len == v.len(),
                forall|k: int| start <= k < i ==> v@[k] != '\n',
            decreases len - i,
        {
            i = i + 1;
        }
        if i == len {
            proof {
                lemma_first_index_none(rest, '\n');
            }
            let line = string_from_chars(&v, start, len);
            let ghost before = views(r@);
            r.push(line);
            assert(views(r@) =~= before + seq![rest]);
            assert(lines_spec(s@) == views(r@));
            assert(v@.subrange(len as int, len as int) =~= Seq::<char>::empty());
            start = len;
        } else {
            proof {
                lemma_first_index_unique(rest, '\n', (i - start) as int);
                assert(rest.subrange(0, (i - start) as int) =~= v@.subrange(
                    start as int,
                    i as int,
                ));
                assert(rest.subrange((i - start) + 1, rest.len() as int) =~= v@.subrange(
                    i + 1,
                    len as int,
                ));
            }
            let end = if i > start && v[i - 1] == '\r' {
                i - 1
            } else {
                i
            };
            let line = string_from_chars(&v, start, end);
            proof {
                assert(line@ == strip_cr(v@.subrange(start as int, i as int)));
            }
            let ghost before = views(r@);
            r.push(line);
            assert(views(r@) =~= before + seq![line@]);
            start = i + 1;
        }
    }
    assert(v@.subrange(len as int, len as int) =~= Seq::<char>::empty());
    r
}

} // verus!

verus! {

/// Calls `std::str::from_utf8`: `Some` exactly when the bytes are valid UTF-8,
/// and then the string they encode.
#[verifier::external_body]
pub(crate) fn decode_utf8_bytes(bytes: &[u8]) -> (r: Option<String>)
    ensures
        r is Some <==> vstd::utf8::valid_utf8(bytes@),
        r matches Some(s) ==> s@ == vstd::utf8::decode_utf8(bytes@),
{
    match std::str::from_utf8(bytes) {
        Ok(s) => Some(s.to_string()),
        Err(_) => None,
    }
}

} // verus!
