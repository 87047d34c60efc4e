//! Splitting a string at each occurrence of a delimiter string.
use vstd::prelude::*;
use vstd::string::*;
use crate::text::str_chars;

verus! {

/// Whether `d` occurs in `s` at position `i`.
pub open spec fn occurs_at(s: Seq<char>, d: Seq<char>, i: int) -> bool {
    0 <= i && i + d.len() <= s.len() && s.subrange(i, i + d.len()) == d
}

/// The first position at or after `i` where `d` occurs in `s`.
pub open spec fn find_seq(s: Seq<char>, d: Seq<char>, i: int) -> Option<int>
    decreases s.len() + 1 - i,
{
    if i < 0 || i + d.len() > s.len() {
        None
    } else if occurs_at(s, d, i) {
        Some(i)
    } else {
        find_seq(s, d, i + 1)
    }
}

/// The first position where `d` occurs in `s`.
pub open spec fn first_match(s: Seq<char>, d: Seq<char>) -> Option<int> {
    find_seq(s, d, 0)
}

pub proof fn lemma_find_seq(s: Seq<char>, d: Seq<char>, i: int)
    requires
        0 <= i,
    ensures
        find_seq(s, d, i) matches Some(k) ==> i <= k && occurs_at(s, d, k) && forall|j: int|
            i <= j < k ==> !#[trigger] occurs_at(s, d, j),
        find_seq(s, d, i) is None ==> forall|j: int| i <= j ==> !#[trigger] occurs_at(s, d, j),
    decreases s.len() + 1 - i,
{
    if i + d.len() <= s.len() && !occurs_at(s, d, i) {
        lemma_find_seq(s, d, i + 1);
    }
}

/// The pieces of `s` between occurrences of a non-empty `d`, left to right.
pub open spec fn split_rest(s: Seq<char>, d: Seq<char>) -> Seq<Seq<char>>
    decreases s.len(),
{
    if d.len() == 0 {
        seq![s]
    } else {
        match first_match(s, d) {
            Some(i) => {
                proof {
                    lemma_find_seq(s, d, 0);
                }
                seq![s.subrange(0, i)] + split_rest(s.subrange(i + d.len(), s.len() as int), d)
            },
            None => seq![s],
        }
    }
}

/// The pieces joined back together with `d` between neighbours.
pub open spec fn join(pieces: Seq<Seq<char>>, d: Seq<char>) -> Seq<char>
    decreases pieces.len(),
{
    if pieces.len() == 0 {
        Seq::empty()
    } else if pieces.len() == 1 {
        pieces[0]
    } else {
        pieces[0] + d + join(pieces.drop_first(), d)
    }
}

pub open spec fn opt_chars(r: Option<&str>) -> Option<Seq<char>> {
    match r {
        Some(s) => Some(s@),
        None => None,
    }
}

/// One step of the splitter on state (remainder, delimiter): the new state and
/// the piece handed out. An empty delimiter hands out nothing.
pub open spec fn next_spec(st: (Option<Seq<char>>, Seq<char>)) -> (
    (Option<Seq<char>>, Seq<char>),
    Option<Seq<char>>,
) {
    let d = st.1;
    if d.len() == 0 {
        (st, None)
    } else {
        match st.0 {
            None => (st, None),
            Some(s) => match first_match(s, d) {
                Some(i) => (
                    (Some(s.subrange(i + d.len(), s.len() as int)), d),
                    Some(s.subrange(0, i)),
                ),
                None => ((None, d), Some(s)),
            },
        }
    }
}

/// Everything the splitter hands out from state `st` on.
pub open spec fn pieces_spec(st: (Option<Seq<char>>, Seq<char>)) -> Seq<Seq<char>> {
    if st.1.len() == 0 {
        Seq::empty()
    } else {
        match st.0 {
            None => Seq::empty(),
            Some(s) => split_rest(s, st.1),
        }
    }
}

/// Hands out the pieces of a string between occurrences of a delimiter.
#[derive(Debug)]
pub struct StrSplit<'a, 'b> {
    remainder: Option<&'a str>,
    delimiter: &'b str,
}

impl<'a, 'b> View for StrSplit<'a, 'b> {
    type V = (Option<Seq<char>>, Seq<char>);

    closed spec fn view(&self) -> (Option<Seq<char>>, Seq<char>) {
        (opt_chars(self.remainder), self.delimiter@)
    }
}

/// Whether `d` occurs in `s` at `i`.
fn matches_at(s: &Vec<char>, d: &Vec<char>, i: usize) -> (r: bool)
    requires
        i + d@.len() <= s@.len(),
    ensures
        r == occurs_at(s@, d@, i as int),
{
    let slen = s.len();
    let mut j: usize = 0;
    while j < d.len()
        invariant
            0 <= j <= d@.len(),
            i + d@.len() <= s@.len(),
            slen == s@.len(),
            forall|k: int| 0 <= k < j ==> s@[i + k] == d@[k],
        decreases d@.len() - j,
    {
        if s[i + j] != d[j] {
            assert(s@.subrange(i as int, i + d@.len())[j as int] != d@[j as int]);
            return false;
        }
        j = j + 1;
    }
    assert(s@.subrange(i as int, i + d@.len()) =~= d@);
    true
}

/// The first position where `d` occurs in `s`.
fn find_chars(s: &Vec<char>, d: &Vec<char>) -> (r: Option<usize>)
    ensures
        r matches Some(i) ==> i + d@.len() <= s@.len(),
        match first_match(s@, d@) {
            Some(i) => r == Some(i as usize),
            None => r is None,
        },
{
    if d.len() > s.len() {
        return None;
    }
    let last = s.len() - d.len();
    let mut i: usize = 0;
    while i <= last
        invariant
            last + d@.len() == s@.len(),
            find_seq(s@, d@, 0) == find_seq(s@, d@, i as int),
        decreases last + 1 - i,
    {
        if matches_at(s, d, i) {
            return Some(i);
        }
        if i == last {
            return None;
        }
        i = i + 1;
    }
    None
}

impl<'a, 'b> StrSplit<'a, 'b> {
    pub fn new(stack: &'a str, delimiter: &'b str) -> (s: Self)
        ensures
            s@ == (Some(stack@), delimiter@),
    {
        StrSplit { remainder: Some(stack), delimiter }
    }

    /// The next piece: the text up to the next occurrence of the delimiter,
    /// or, when there is none, the rest of the text; then nothing.
    /// With an empty delimiter there is no piece at all.
    pub fn next(&mut self) -> (r: Option<&'a str>)
        ensures
            (final(self)@, opt_chars(r)) == next_spec(old(self)@),
    {
        if self.delimiter.is_empty() {
            return None;
        }
        match self.remainder {
            Some(s) => {
                let sc = str_chars(s);
                let dc = str_chars(self.delimiter);
                let slen = sc.len();
                let dlen = dc.len();
                match find_chars(&sc, &dc) {
                    Some(i) => {
                        proof {
                            lemma_find_seq(s@, self.delimiter@, 0);
                        }
                        let head = s.substring_char(0, i);
                        let rest = s.substring_char(i + dlen, slen);
                        self.remainder = Some(rest);
                        Some(head)
                    },
                    None => {
                        self.remainder = None;
                        Some(s)
                    },
                }
            },
            None => None,
        }
    }

    /// All the remaining pieces, in order.
    pub fn collect(self) -> (v: Vec<&'a str>)
        ensures
            v@.len() == pieces_spec(self@).len(),
            forall|i: int| 0 <= i < v@.len() ==> #[trigger] v@[i]@ == pieces_spec(self@)[i],
    {
        let ghost init = self@;
        let mut it = self;
        let mut v: Vec<&'a str> = Vec::new();
        loop
            invariant
                init == self@,
                forall|i: int| 0 <= i < v@.len() ==> #[trigger] v@[i]@ == pieces_spec(init)[i],
                v@.len() + pieces_spec(it@).len() == pieces_spec(init).len(),
                forall|i: int|
                    0 <= i < pieces_spec(it@).len() ==> #[trigger] pieces_spec(it@)[i]
                        == pieces_spec(init)[v@.len() + i],
            decreases
                match it@.0 {
                    Some(s) => s.len() + 1,
                    None => 0,
                },
        {
            let ghost before = it@;
            let r = it.next();
            match r {
                Some(p) => {
                    proof {
                        lemma_find_seq(before.0->0, before.1, 0);
                        assert(pieces_spec(before) =~= seq![p@] + pieces_spec(it@));
                    }
                    let ghost old_len = v@.len();
                    v.push(p);
                    assert(pieces_spec(before)[0] == p@);
                    assert(v@[old_len as int]@ == pieces_spec(init)[old_len as int]);
                    assert forall|i: int| 0 <= i < v@.len() implies #[trigger] v@[i]@
                        == pieces_spec(init)[i] by {
                        if i < old_len {
                        }
                    }
                    assert forall|i: int| 0 <= i < pieces_spec(it@).len() implies #[trigger] pieces_spec(
                        it@,
                    )[i] == pieces_spec(init)[v@.len() + i] by {
                        assert(pieces_spec(it@)[i] == pieces_spec(before)[i + 1]);
                    }
                },
                None => {
                    assert(pieces_spec(before).len() == 0);
                    return v;
                },
            }
        }
    }
}

/// `char::to_string`: the one-character string holding `c`.
#[verifier::external_body]
fn char_to_string(c: char) -> (s: String)
    ensures
        s@ == seq![c],
{
    c.to_string()
}

/// The part of `s` before the first occurrence of `c`, or all of `s`.
pub fn until_char<'a>(s: &'a str, c: &'a char) -> (r: &'a str)
    ensures
        r@ == match first_match(s@, seq![*c]) {
            Some(i) => s@.subrange(0, i),
            None => s@,
        },
{
    let d = char_to_string(*c);
    let result = StrSplit::new(s, d.as_str());
    let vec: Vec<&str> = result.collect();
    proof {
        lemma_find_seq(s@, seq![*c], 0);
    }
    vec[0]
}

// ---------------- laws ----------------

/// Joining the pieces back with the delimiter gives the text that was split.
pub proof fn law_split_join(s: Seq<char>, d: Seq<char>)
    requires
        d.len() > 0,
    ensures
        join(split_rest(s, d), d) == s,
    decreases s.len(),
{
    lemma_find_seq(s, d, 0);
    match first_match(s, d) {
        Some(i) => {
            let rest = s.subrange(i + d.len(), s.len() as int);
            law_split_join(rest, d);
            let ps = split_rest(s, d);
            let tail = split_rest(rest, d);
            assert(ps.drop_first() =~= tail);
            law_pieces_nonempty(rest, d);
            assert(s =~= s.subrange(0, i) + d + rest);
        },
        None => {},
    }
}

/// Splitting hands out at least one piece.
pub proof fn law_pieces_nonempty(s: Seq<char>, d: Seq<char>)
    ensures
        split_rest(s, d).len() >= 1,
    decreases s.len(),
{
    if d.len() > 0 {
        lemma_find_seq(s, d, 0);
        if let Some(i) = first_match(s, d) {
            law_pieces_nonempty(s.subrange(i + d.len(), s.len() as int), d);
        }
    }
}

/// No piece contains the delimiter.
pub proof fn law_pieces_free_of_delimiter(s: Seq<char>, d: Seq<char>, k: int)
    requires
        d.len() > 0,
        0 <= k < split_rest(s, d).len(),
    ensures
        first_match(split_rest(s, d)[k], d) is None,
    decreases s.len(),
{
    lemma_find_seq(s, d, 0);
    match first_match(s, d) {
        Some(i) => {
            let rest = s.subrange(i + d.len(), s.len() as int);
            if k == 0 {
                let p = s.subrange(0, i);
                lemma_find_seq(p, d, 0);
                if let Some(j) = first_match(p, d) {
                    assert(s.subrange(j, j + d.len()) =~= p.subrange(j, j + d.len()));
                    assert(occurs_at(s, d, j));
                }
            } else {
                law_pieces_free_of_delimiter(rest, d, k - 1);
            }
        },
        None => {},
    }
}

} // verus!
