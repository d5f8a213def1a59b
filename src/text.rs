use vstd::prelude::*;

verus! {

/// The views of a sequence of strings.
pub open spec fn views(v: Seq<String>) -> Seq<Seq<char>> {
    v.map_values(|x: String| x@)
}

/// The pieces of `s` between occurrences of `sep`, empty pieces included
/// (as `str::split` hands them out).
pub open spec fn pieces(s: Seq<char>, sep: char) -> Seq<Seq<char>>
    decreases s.len(),
{
    if s.len() == 0 {
        seq![Seq::empty()]
    } else {
        let p = pieces(s.drop_last(), sep);
        if s.last() == sep {
            p.push(Seq::empty())
        } else {
            p.update(p.len() - 1, p.last().push(s.last()))
        }
    }
}

/// The lines of `s`: its pieces between newlines, without the empty piece
/// that a final newline would leave.
pub open spec fn lines_of(s: Seq<char>) -> Seq<Seq<char>> {
    if s.len() == 0 {
        Seq::empty()
    } else if s.last() == '\n' {
        pieces(s.drop_last(), '\n')
    } else {
        pieces(s, '\n')
    }
}

pub open spec fn is_space(c: char) -> bool {
    c == ' ' || c == '\t' || c == '\n' || c == '\r' || c == '\x0b' || c == '\x0c'
}

/// The maximal runs of non-space characters of `s`, in order.
pub open spec fn words(s: Seq<char>) -> Seq<Seq<char>>
    decreases s.len(),
{
    if s.len() == 0 {
        Seq::empty()
    } else {
        let w = words(s.drop_last());
        if is_space(s.last()) {
            w
        } else if s.len() >= 2 && !is_space(s[s.len() - 2]) && w.len() > 0 {
            w.update(w.len() - 1, w.last().push(s.last()))
        } else {
            w.push(seq![s.last()])
        }
    }
}

pub open spec fn is_digit(c: char) -> bool {
    '0' <= c && c <= '9'
}

pub open spec fn digit_value(c: char) -> int {
    (c as u32 as int) - ('0' as u32 as int)
}

/// The number that a string of decimal digits writes.
pub open spec fn decimal_value(s: Seq<char>) -> int
    decreases s.len(),
{
    if s.len() == 0 {
        0
    } else {
        decimal_value(s.drop_last()) * 10 + digit_value(s.last())
    }
}

pub open spec fn is_decimal(s: Seq<char>) -> bool {
    s.len() > 0 && forall|i: int| 0 <= i < s.len() ==> is_digit(#[trigger] s[i])
}

pub proof fn lemma_pieces_len(s: Seq<char>, sep: char)
    ensures
        pieces(s, sep).len() >= 1,
    decreases s.len(),
{
    if s.len() > 0 {
        lemma_pieces_len(s.drop_last(), sep);
    }
}

proof fn lemma_views_push(v: Seq<String>, x: String)
    ensures
        views(v.push(x)) == views(v).push(x@),
{
    assert(views(v.push(x)) =~= views(v).push(x@));
}

/// The characters of `s`, one by one.
pub fn chars_of(s: &str) -> (r: Vec<char>)
    ensures
        r@ == s@,
{
    let n = s.unicode_len();
    let mut r: Vec<char> = Vec::new();
    let mut i: usize = 0;
    while i < n
        invariant
            n == s@.len(),
            i <= n,
            r@ == s@.take(i as int),
        decreases n - i,
    {
        r.push(s.get_char(i));
        i += 1;
        assert(r@ =~= s@.take(i as int));
    }
    assert(r@ =~= s@);
    r
}

/// Splits `s` at every `sep`, keeping empty pieces.
pub fn split_on(s: &str, sep: char) -> (r: Vec<String>)
    ensures
        views(r@) == pieces(s@, sep),
{
    let cs = chars_of(s);
    let n = cs.len();
    let mut r: Vec<String> = Vec::new();
    let mut start: usize = 0;
    let mut i: usize = 0;
    proof {
        assert(views(r@) =~= Seq::<Seq<char>>::empty());
        assert(s@.subrange(0, 0) =~= Seq::<char>::empty());
        assert(views(r@).push(s@.subrange(0, 0)) =~= seq![Seq::<char>::empty()]);
        assert(s@.take(0) =~= Seq::<char>::empty());
    }
    while i < n
        invariant
            n == s@.len(),
            cs@ == s@,
            start <= i <= n,
            views(r@).push(s@.subrange(start as int, i as int)) == pieces(s@.take(i as int), sep),
        decreases n - i,
    {
        let ghost t = s@.take(i as int + 1);
        proof {
            assert(t.drop_last() =~= s@.take(i as int));
            assert(t.last() == s@[i as int]);
        }
        if cs[i] == sep {
            let piece = s.substring_char(start, i).to_owned();
            proof {
                lemma_views_push(r@, piece);
            }
            r.push(piece);
            start = i + 1;
            assert(s@.subrange(start as int, start as int) =~= Seq::<char>::empty());
        } else {
            let ghost p = views(r@).push(s@.subrange(start as int, i as int));
            assert(s@.subrange(start as int, i as int + 1) =~= s@.subrange(start as int, i as int).push(s@[i as int]));
            assert(p.update(p.len() - 1, p.last().push(s@[i as int])) =~= views(r@).push(
                s@.subrange(start as int, i as int + 1),
            ));
        }
        i += 1;
    }
    let last = s.substring_char(start, n).to_owned();
    proof {
        lemma_views_push(r@, last);
        assert(s@.take(n as int) =~= s@);
    }
    r.push(last);
    r
}

/// Splits `s` into its lines.
pub fn split_lines(s: &str) -> (r: Vec<String>)
    ensures
        views(r@) == lines_of(s@),
{
    let n = s.unicode_len();
    if n == 0 {
        let r: Vec<String> = Vec::new();
        assert(views(r@) =~= Seq::<Seq<char>>::empty());
        r
    } else if s.get_char(n - 1) == '\n' {
        let body = s.substring_char(0, n - 1);
        assert(body@ =~= s@.drop_last());
        split_on(body, '\n')
    } else {
        split_on(s, '\n')
    }
}

/// Splits `s` into its words, the runs of characters between white space.
pub fn split_words(s: &str) -> (r: Vec<String>)
    ensures
        views(r@) == words(s@),
{
    let cs = chars_of(s);
    let n = cs.len();
    let mut r: Vec<String> = Vec::new();
    let mut start: usize = 0;
    let mut in_word = false;
    let mut i: usize = 0;
    while i < n
        invariant
            n == s@.len(),
            cs@ == s@,
            start <= i <= n,
            in_word ==> start < i && !is_space(s@[i - 1]) && views(r@).push(
                s@.subrange(start as int, i as int),
            ) == words(s@.take(i as int)),
            !in_word ==> (i == 0 || is_space(s@[i - 1])) && views(r@) == words(
                s@.take(i as int),
            ),
        decreases n - i,
    {
        let ghost t = s@.take(i as int + 1);
        proof {
            assert(t.drop_last() =~= s@.take(i as int));
            assert(t.last() == s@[i as int]);
            if i > 0 {
                assert(t[t.len() - 2] == s@[i - 1]);
            }
        }
        let c = cs[i];
        if c == ' ' || c == '\t' || c == '\n' || c == '\r' || c == '\x0b' || c == '\x0c' {
            if in_word {
                let w = s.substring_char(start, i).to_owned();
                proof {
                    lemma_views_push(r@, w);
                }
                r.push(w);
                in_word = false;
            }
        } else {
            if in_word {
                let ghost p = views(r@).push(s@.subrange(start as int, i as int));
                assert(s@.subrange(start as int, i as int + 1) =~= s@.subrange(start as int, i as int).push(c));
                assert(p.update(p.len() - 1, p.last().push(c)) =~= views(r@).push(
                    s@.subrange(start as int, i as int + 1),
                ));
            } else {
                start = i;
                assert(s@.subrange(start as int, i as int + 1) =~= seq![c]);
            }
            in_word = true;
        }
        i += 1;
    }
    proof {
        assert(s@.take(n as int) =~= s@);
    }
    if in_word {
        let w = s.substring_char(start, n).to_owned();
        proof {
            lemma_views_push(r@, w);
        }
        r.push(w);
    }
    r
}

proof fn lemma_decimal_prefix(s: Seq<char>, k: int)
    requires
        0 <= k <= s.len(),
        forall|i: int| 0 <= i < s.len() ==> is_digit(#[trigger] s[i]),
    ensures
        decimal_value(s) >= decimal_value(s.take(k)) >= 0,
    decreases s.len(),
{
    if k == s.len() {
        assert(s.take(k) =~= s);
        if s.len() > 0 {
            lemma_decimal_prefix(s.drop_last(), k - 1);
        }
    } else {
        assert(s.drop_last().take(k) =~= s.take(k));
        lemma_decimal_prefix(s.drop_last(), k);
    }
}

/// Reads a decimal number; `None` where `s` is not one or it exceeds `u64`.
pub fn parse_decimal(s: &str) -> (r: Option<u64>)
    ensures
        r == (if is_decimal(s@) && decimal_value(s@) <= u64::MAX {
            Some(decimal_value(s@) as u64)
        } else {
            None
        }),
{
    let cs = chars_of(s);
    let n = cs.len();
    if n == 0 {
        return None;
    }
    let mut acc: u64 = 0;
    let mut i: usize = 0;
    assert(s@.take(0) =~= Seq::<char>::empty());
    while i < n
        invariant
            n == s@.len(),
            cs@ == s@,
            i <= n,
            forall|j: int| 0 <= j < i ==> is_digit(#[trigger] s@[j]),
            acc as int == decimal_value(s@.take(i as int)),
        decreases n - i,
    {
        let c = cs[i];
        if !('0' <= c && c <= '9') {
            return None;
        }
        let ghost t = s@.take(i as int + 1);
        assert(t.drop_last() =~= s@.take(i as int));
        let d = (c as u32 - '0' as u32) as u64;
        let next = match acc.checked_mul(10) {
            Some(m) => m.checked_add(d),
            None => None,
        };
        match next {
            Some(v) => {
                acc = v;
            },
            None => {
                proof {
                    if is_decimal(s@) {
                        lemma_decimal_prefix(s@, i as int + 1);
                    }
                }
                return None;
            },
        }
        i += 1;
    }
    assert(s@.take(n as int) =~= s@);
    Some(acc)
}

/// The marker after which module information puts its long signature value.
pub open spec fn signature_marker() -> Seq<char> {
    seq!['s', 'i', 'g', 'n', 'a', 't', 'u', 'r', 'e', ':', ' ']
}

pub open spec fn marker_at(s: Seq<char>, i: int) -> bool {
    0 <= i && i + signature_marker().len() <= s.len() && s.subrange(
        i,
        i + signature_marker().len(),
    ) == signature_marker()
}

/// `s` with a newline put after every occurrence of the signature marker,
/// the occurrences taken from left to right without overlap.
pub open spec fn break_signatures(s: Seq<char>) -> Seq<char>
    decreases s.len(),
{
    if s.len() == 0 {
        s
    } else if marker_at(s, 0) {
        signature_marker() + seq!['\n'] + break_signatures(s.skip(signature_marker().len() as int))
    } else {
        seq![s[0]] + break_signatures(s.skip(1))
    }
}

/// Puts a newline after every occurrence of the signature marker.
pub fn break_after_signature(s: &str) -> (r: String)
    ensures
        r@ == break_signatures(s@),
{
    let cs = chars_of(s);
    let n = cs.len();
    let marker = "signature: ";
    let newline = "\n";
    proof {
        reveal_strlit("signature: ");
        reveal_strlit("\n");
        assert(marker@ =~= signature_marker());
    }
    let mut r = String::new();
    let mut start: usize = 0;
    let mut i: usize = 0;
    assert(s@.subrange(0, 0) =~= Seq::<char>::empty());
    assert(s@.skip(0) =~= s@);
    while i < n
        invariant
            n == s@.len(),
            cs@ == s@,
            marker@ == signature_marker(),
            newline@ == seq!['\n'],
            start <= i <= n,
            break_signatures(s@) == r@ + s@.subrange(start as int, i as int) + break_signatures(
                s@.skip(i as int),
            ),
        decreases n - i,
    {
        let mut found = n >= 11 && i <= n - 11;
        let mut k: usize = 0;
        while found && k < 11
            invariant
                n == s@.len(),
                cs@ == s@,
                marker@ == signature_marker(),
                i < n,
                k <= 11,
                found ==> i + 11 <= n,
                found ==> forall|j: int| 0 <= j < k ==> s@[i + j] == signature_marker()[j],
                !found ==> (i + 11 > n || exists|j: int|
                    0 <= j < k && s@[i + j] != signature_marker()[j]),
            decreases 11 - k,
        {
            if cs[i + k] != marker.get_char(k) {
                found = false;
            }
            k += 1;
        }
        let ghost rest = s@.skip(i as int);
        if found {
            assert(rest.subrange(0, 11) =~= signature_marker());
            assert(rest.skip(11) =~= s@.skip(i + 11));
            let chunk = s.substring_char(start, i + 11);
            r.append(chunk);
            r.append(newline);
            assert(chunk@ =~= s@.subrange(start as int, i as int) + signature_marker());
            i = i + 11;
            start = i;
            assert(s@.subrange(start as int, i as int) =~= Seq::<char>::empty());
        } else {
            assert(!marker_at(rest, 0)) by {
                if marker_at(rest, 0) {
                    assert(i + 11 <= n);
                    let j = choose|j: int| 0 <= j < k && s@[i + j] != signature_marker()[j];
                    assert(s@[i + j] == rest.subrange(0, 11)[j]);
                }
            }
            assert(rest.skip(1) =~= s@.skip(i + 1));
            assert(s@.subrange(start as int, i as int + 1) =~= s@.subrange(start as int, i as int)
                + seq![s@[i as int]]);
            i = i + 1;
        }
    }
    let tail = s.substring_char(start, n);
    r.append(tail);
    assert(s@.skip(n as int) =~= Seq::<char>::empty());
    r
}

/// Every word is a non-empty run of non-space characters.
pub proof fn lemma_words_shape(s: Seq<char>)
    ensures
        forall|i: int|
            0 <= i < words(s).len() ==> (#[trigger] words(s)[i]).len() > 0 && forall|j: int|
                0 <= j < words(s)[i].len() ==> !is_space(words(s)[i][j]),
    decreases s.len(),
{
    if s.len() > 0 {
        lemma_words_shape(s.drop_last());
        let w = words(s.drop_last());
        if !is_space(s.last()) && s.len() >= 2 && !is_space(s[s.len() - 2]) && w.len() > 0 {
            let l = w.last().push(s.last());
            assert forall|j: int| 0 <= j < l.len() implies !is_space(l[j]) by {
                if j < l.len() - 1 {
                    assert(l[j] == w[w.len() - 1][j]);
                }
            }
        }
    }
}

/// A text with a non-space character has a word.
pub proof fn lemma_words_exist(s: Seq<char>, k: int)
    requires
        0 <= k < s.len(),
        !is_space(s[k]),
    ensures
        words(s).len() > 0,
    decreases s.len(),
{
    if is_space(s.last()) {
        lemma_words_exist(s.drop_last(), k);
    }
}

/// A non-empty text has at least one line.
pub proof fn lemma_lines_nonempty(s: Seq<char>)
    requires
        s.len() > 0,
    ensures
        lines_of(s).len() >= 1,
{
    lemma_pieces_len(s, '\n');
    lemma_pieces_len(s.drop_last(), '\n');
}

/// Breaking the signature lines of a non-empty text leaves it non-empty.
pub proof fn lemma_break_nonempty(s: Seq<char>)
    requires
        s.len() > 0,
    ensures
        break_signatures(s).len() > 0,
{
}

} // verus!
