use vstd::prelude::*;

verus! {

broadcast use vstd::string::group_string_axioms;

/// `s` surrounded by square brackets.
pub open spec fn bracketed(s: Seq<char>) -> Seq<char> {
    seq!['['] + s + seq![']']
}

/// The bracketed parts joined by dots: `[a].[b].[c]`.
pub open spec fn member_path(parts: Seq<Seq<char>>) -> Seq<char>
    decreases parts.len(),
{
    if parts.len() == 0 {
        Seq::empty()
    } else if parts.len() == 1 {
        bracketed(parts[0])
    } else {
        member_path(parts.drop_last()) + seq!['.'] + bracketed(parts.last())
    }
}

/// The characters of `s`, in order.
pub fn chars_of(s: &str) -> (r: Vec<char>)
    ensures
        r@ == s@,
{
    let mut r: Vec<char> = Vec::new();
    for c in it: s.chars()
        invariant
            it.seq() == s@,
            r@ == it.seq().take(it.index()),
    {
        r.push(c);
    }
    assert(r@ =~= s@);
    r
}

/// `String::push`: afterwards the string holds its former characters followed
/// by `c`.
#[verifier::external_body]
pub fn push_char(s: &mut String, c: char)
    ensures
        final(s)@ == old(s)@.push(c),
{
    s.push(c);
}

/// Whether `s` holds exactly the characters of `lit`.
pub fn str_is(s: &String, lit: &str) -> (r: bool)
    ensures
        r == (s@ == lit@),
{
    let other: String = lit.to_owned();
    *s == other
}

/// Builds the member path `[p0].[p1]...` of the given parts.
pub fn make_member_path(parts: &Vec<String>) -> (r: String)
    ensures
        r@ == member_path(parts@.map_values(|p: String| p@)),
{
    let ghost views = parts@.map_values(|p: String| p@);
    let mut r = String::new();
    let mut i: usize = 0;
    while i < parts.len()
        invariant
            i <= parts.len(),
            views == parts@.map_values(|p: String| p@),
            r@ == member_path(views.take(i as int)),
        decreases parts.len() - i,
    {
        let ghost before = r@;
        if i > 0 {
            push_char(&mut r, '.');
        }
        push_char(&mut r, '[');
        r.append(parts[i].as_str());
        push_char(&mut r, ']');
        proof {
            let t = views.take(i + 1);
            assert(t.drop_last() =~= views.take(i as int));
            assert(t.last() == parts@[i as int]@);
            if i == 0 {
                assert(r@ =~= bracketed(t[0]));
            } else {
                assert(r@ =~= before + seq!['.'] + bracketed(t.last()));
            }
        }
        i = i + 1;
    }
    assert(views.take(parts.len() as int) =~= views);
    r
}


/// The pieces of `s` between occurrences of `sep`, as `str::split` gives them:
/// one more piece than there are separators, empty pieces included.
pub open spec fn split_on(s: Seq<char>, sep: char) -> Seq<Seq<char>>
    decreases s.len(),
{
    if s.len() == 0 {
        seq![Seq::empty()]
    } else {
        let pieces = split_on(s.drop_last(), sep);
        if s.last() == sep {
            pieces.push(Seq::empty())
        } else {
            pieces.update(pieces.len() - 1, pieces.last().push(s.last()))
        }
    }
}

/// There is always at least one piece.
pub proof fn lemma_split_on_nonempty(s: Seq<char>, sep: char)
    ensures
        split_on(s, sep).len() >= 1,
    decreases s.len(),
{
    if s.len() > 0 {
        lemma_split_on_nonempty(s.drop_last(), sep);
    }
}

/// Appending characters other than the separator extends the last piece.
pub proof fn lemma_split_on_extend(p: Seq<char>, b: Seq<char>, sep: char)
    requires
        !b.contains(sep),
    ensures
        split_on(p + b, sep).len() == split_on(p, sep).len(),
        split_on(p + b, sep) == split_on(p, sep).update(
            split_on(p, sep).len() - 1,
            split_on(p, sep).last() + b,
        ),
    decreases b.len(),
{
    lemma_split_on_nonempty(p, sep);
    if b.len() == 0 {
        assert(p + b =~= p);
        assert(split_on(p, sep).last() + b =~= split_on(p, sep).last());
        assert(split_on(p, sep).update(split_on(p, sep).len() - 1, split_on(p, sep).last())
            =~= split_on(p, sep));
    } else {
        let b0 = b.drop_last();
        assert(!b0.contains(sep)) by {
            if b0.contains(sep) {
                let i = choose|i: int| 0 <= i < b0.len() && b0[i] == sep;
                assert(b[i] == sep);
            }
        }
        lemma_split_on_extend(p, b0, sep);
        assert((p + b).drop_last() =~= p + b0);
        assert((p + b).last() == b.last());
        assert(b.last() != sep) by {
            assert(b[b.len() - 1] == b.last());
        }
        let q = split_on(p, sep);
        let r = split_on(p + b0, sep);
        assert(r.len() == q.len());
        assert(r.last() == q.last() + b0);
        assert((q.last() + b0).push(b.last()) =~= q.last() + b);
        assert(split_on(p + b, sep) == r.update(r.len() - 1, r.last().push(b.last())));
        assert(split_on(p + b, sep) =~= q.update(q.len() - 1, q.last() + b));
    }
}

/// A string without the separator is a single piece.
pub proof fn lemma_split_on_none(s: Seq<char>, sep: char)
    requires
        !s.contains(sep),
    ensures
        split_on(s, sep) == seq![s],
{
    lemma_split_on_extend(Seq::empty(), s, sep);
    assert(Seq::<char>::empty() + s =~= s);
    assert(split_on(Seq::empty(), sep).last() + s =~= s);
    assert(seq![Seq::<char>::empty()].update(0, s) =~= seq![s]);
}

/// Two pieces joined by one separator split back into those two pieces.
pub proof fn lemma_split_on_two(a: Seq<char>, b: Seq<char>, sep: char)
    requires
        !a.contains(sep),
        !b.contains(sep),
    ensures
        split_on(a + seq![sep] + b, sep) == seq![a, b],
{
    lemma_split_on_none(a, sep);
    let p = a + seq![sep];
    assert(p.drop_last() =~= a);
    assert(split_on(p, sep) =~= seq![a, Seq::empty()]);
    lemma_split_on_extend(p, b, sep);
    assert(Seq::<char>::empty() + b =~= b);
    assert(seq![a, Seq::<char>::empty()].update(1, b) =~= seq![a, b]);
}

/// Splits `s` at each occurrence of `sep`.
pub fn split_char(s: &str, sep: char) -> (r: Vec<String>)
    ensures
        r@.map_values(|p: String| p@) == split_on(s@, sep),
{
    let chars = chars_of(s);
    let mut pieces: Vec<String> = Vec::new();
    let mut current = String::new();
    let mut i: usize = 0;
    assert(chars@.take(0) =~= Seq::<char>::empty());
    while i < chars.len()
        invariant
            i <= chars.len(),
            chars@ == s@,
            pieces@.map_values(|p: String| p@).push(current@) == split_on(chars@.take(i as int), sep),
        decreases chars.len() - i,
    {
        let ghost before = pieces@.map_values(|p: String| p@).push(current@);
        let c = chars[i];
        assert(chars@.take(i + 1).drop_last() =~= chars@.take(i as int));
        assert(chars@.take(i + 1).last() == c);
        if c == sep {
            let done = current;
            pieces.push(done);
            current = String::new();
            assert(pieces@.map_values(|p: String| p@).push(current@) =~= before.push(Seq::empty()));
        } else {
            push_char(&mut current, c);
            assert(pieces@.map_values(|p: String| p@).push(current@) =~= before.update(
                before.len() - 1,
                before.last().push(c),
            ));
        }
        i = i + 1;
    }
    assert(chars@.take(i as int) =~= s@);
    pieces.push(current);
    pieces
}

/// The number of times `c` occurs in `s`.
pub open spec fn count_char(s: Seq<char>, c: char) -> nat
    decreases s.len(),
{
    if s.len() == 0 {
        0
    } else {
        count_char(s.drop_last(), c) + if s.last() == c {
            1nat
        } else {
            0nat
        }
    }
}

/// Splitting gives one more piece than there are separators.
pub proof fn lemma_split_on_len(s: Seq<char>, sep: char)
    ensures
        split_on(s, sep).len() == count_char(s, sep) + 1,
    decreases s.len(),
{
    if s.len() > 0 {
        lemma_split_on_len(s.drop_last(), sep);
    }
}

/// A member path of three parts: `[a].[b].[c]`.
pub proof fn lemma_member_path_three(a: Seq<char>, b: Seq<char>, c: Seq<char>)
    ensures
        member_path(seq![a, b, c]) == seq!['['] + a + seq![']', '.', '['] + b + seq![
            ']',
            '.',
            '[',
        ] + c + seq![']'],
{
    let s3 = seq![a, b, c];
    assert(s3.drop_last() =~= seq![a, b]);
    assert(seq![a, b].drop_last() =~= seq![a]);
    assert(member_path(seq![a]) == bracketed(a));
    assert(seq![a, b].last() == b);
    assert(s3.last() == c);
    assert(member_path(seq![a, b]) == bracketed(a) + seq!['.'] + bracketed(b));
    assert(member_path(s3) == member_path(seq![a, b]) + seq!['.'] + bracketed(c));
    assert(member_path(s3) =~= seq!['['] + a + seq![']', '.', '['] + b + seq![']', '.', '[']
        + c + seq![']']);
}

/// A member path of four parts: `[a].[b].[c].[d]`.
pub proof fn lemma_member_path_four(a: Seq<char>, b: Seq<char>, c: Seq<char>, d: Seq<char>)
    ensures
        member_path(seq![a, b, c, d]) == seq!['['] + a + seq![']', '.', '['] + b + seq![
            ']',
            '.',
            '[',
        ] + c + seq![']', '.', '['] + d + seq![']'],
{
    let s4 = seq![a, b, c, d];
    assert(s4.drop_last() =~= seq![a, b, c]);
    lemma_member_path_three(a, b, c);
    assert(s4.last() == d);
    assert(member_path(s4) == member_path(seq![a, b, c]) + seq!['.'] + bracketed(d));
    assert(member_path(s4) =~= seq!['['] + a + seq![']', '.', '['] + b + seq![']', '.', '[']
        + c + seq![']', '.', '['] + d + seq![']']);
}

/// The pieces joined back with the separator between them.
pub open spec fn join_on(pieces: Seq<Seq<char>>, sep: char) -> Seq<char>
    decreases pieces.len(),
{
    if pieces.len() <= 1 {
        if pieces.len() == 1 {
            pieces[0]
        } else {
            Seq::empty()
        }
    } else {
        join_on(pieces.drop_last(), sep) + seq![sep] + pieces.last()
    }
}

/// Splitting loses nothing: the pieces, joined back with the separator, are
/// the string, and no piece holds the separator.
pub proof fn lemma_split_on_join(s: Seq<char>, sep: char)
    ensures
        join_on(split_on(s, sep), sep) == s,
        forall|i: int|
            0 <= i < split_on(s, sep).len() ==> !(#[trigger] split_on(s, sep)[i]).contains(sep),
    decreases s.len(),
{
    lemma_split_on_nonempty(s, sep);
    if s.len() == 0 {
        assert(!Seq::<char>::empty().contains(sep));
    } else {
        let init = s.drop_last();
        let c = s.last();
        lemma_split_on_join(init, sep);
        lemma_split_on_nonempty(init, sep);
        let q = split_on(init, sep);
        let r = split_on(s, sep);
        if c == sep {
            assert(r == q.push(Seq::empty()));
            assert(r.drop_last() =~= q);
            assert(join_on(r, sep) =~= s);
            assert forall|i: int| 0 <= i < r.len() implies !(#[trigger] r[i]).contains(sep) by {
                if i < q.len() {
                    assert(r[i] == q[i]);
                } else {
                    assert(!Seq::<char>::empty().contains(sep));
                }
            }
        } else {
            let n = q.len() - 1;
            assert(r == q.update(n, q.last().push(c)));
            assert(r.len() == q.len());
            assert forall|i: int| 0 <= i < r.len() implies !(#[trigger] r[i]).contains(sep) by {
                if i < n {
                    assert(r[i] == q[i]);
                } else {
                    assert(r[i] == q[n].push(c));
                    if r[i].contains(sep) {
                        let k = choose|k: int| 0 <= k < r[i].len() && r[i][k] == sep;
                        assert(q[n][k] == sep);
                    }
                }
            }
            if q.len() == 1 {
                assert(join_on(q, sep) == q[0]);
                assert(join_on(r, sep) == r[0]);
                assert(r[0] =~= q[0].push(c));
                assert(s =~= init.push(c));
            } else {
                assert(r.drop_last() =~= q.drop_last());
                assert(join_on(q, sep) == join_on(q.drop_last(), sep) + seq![sep] + q.last());
                assert(join_on(r, sep) == join_on(q.drop_last(), sep) + seq![sep] + q.last().push(
                    c,
                ));
                assert(join_on(r, sep) =~= join_on(q, sep).push(c));
                assert(s =~= init.push(c));
            }
        }
    }
}

} // verus!
