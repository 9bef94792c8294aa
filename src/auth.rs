use vstd::prelude::*;
use crate::text::{chars_of, same_chars, string_of};

verus! {

/// Splitting text into lines as `str::lines` does, one character at a time:
/// the finished lines and the line under way. A `\n` ends a line, and drops
/// one `\r` just before it.
pub open spec fn lines_acc(s: Seq<char>) -> (Seq<Seq<char>>, Seq<char>)
    decreases s.len(),
{
    if s.len() == 0 {
        (seq![], seq![])
    } else {
        let (done, cur) = lines_acc(s.drop_last());
        if s.last() == '\n' {
            (done.push(strip_cr(cur)), seq![])
        } else {
            (done, cur.push(s.last()))
        }
    }
}

pub open spec fn strip_cr(l: Seq<char>) -> Seq<char> {
    if l.len() > 0 && l.last() == '\r' {
        l.drop_last()
    } else {
        l
    }
}

/// The lines of `s`; a last line without a line ending counts, an empty
/// remainder after the last line ending does not.
pub open spec fn lines(s: Seq<char>) -> Seq<Seq<char>> {
    let (done, cur) = lines_acc(s);
    if cur.len() == 0 {
        done
    } else {
        done.push(cur)
    }
}

/// `k` is the position of the first space in `l`.
pub open spec fn is_first_space(l: Seq<char>, k: int) -> bool {
    &&& 0 <= k < l.len()
    &&& l[k] == ' '
    &&& forall|j: int| 0 <= j < k ==> l[j] != ' '
}

/// A line `<token> <username>`, split at its first space.
pub open spec fn parse_line(l: Seq<char>) -> Option<(Seq<char>, Seq<char>)> {
    if exists|k: int| is_first_space(l, k) {
        let k = choose|k: int| is_first_space(l, k);
        Some((l.take(k), l.skip(k + 1)))
    } else {
        None
    }
}

/// The map from token to username that a list of pairs gives, a later pair
/// replacing an earlier one with the same token.
pub open spec fn pairs_map(ps: Seq<(Seq<char>, Seq<char>)>) -> Map<Seq<char>, Seq<char>>
    decreases ps.len(),
{
    if ps.len() == 0 {
        Map::empty()
    } else {
        pairs_map(ps.drop_last()).insert(ps.last().0, ps.last().1)
    }
}

/// The pairs of the lines of a well-formed token file.
pub open spec fn parsed_pairs(ls: Seq<Seq<char>>) -> Seq<(Seq<char>, Seq<char>)> {
    ls.map_values(|l: Seq<char>| parse_line(l)->Some_0)
}

/// Every line of the text is of the form `<token> <username>`.
pub open spec fn well_formed_tokens(text: Seq<char>) -> bool {
    forall|i: int| 0 <= i < lines(text).len() ==> (#[trigger] parse_line(lines(text)[i])) is Some
}

/// A malformed line of a token file, by its index (from zero).
#[derive(Clone, Copy, Debug, PartialEq, Eq, Structural)]
pub struct TokensMalformed {
    pub line: usize,
}

/// The bearer tokens allowed to upload, each with its username.
pub struct AuthRegistry {
    entries: Vec<(String, String)>,
}

impl AuthRegistry {
    pub closed spec fn pairs(&self) -> Seq<(Seq<char>, Seq<char>)> {
        self.entries@.map_values(|e: (String, String)| (e.0@, e.1@))
    }

    /// Token to username.
    pub open spec fn view(&self) -> Map<Seq<char>, Seq<char>> {
        pairs_map(self.pairs())
    }

    /// The registry that holds no token.
    pub fn empty() -> (r: AuthRegistry)
        ensures
            r@ == Map::<Seq<char>, Seq<char>>::empty(),
    {
        let r = AuthRegistry { entries: Vec::new() };
        assert(r.pairs().len() == 0);
        r
    }

    /// Adds a token, replacing any earlier one that is equal.
    pub fn insert(&mut self, token: String, username: String)
        ensures
            final(self)@ == old(self)@.insert(token@, username@),
    {
        let ghost before = self.pairs();
        self.entries.push((token, username));
        assert(self.pairs().drop_last() == before);
    }

    /// Reads a token file: one `<token> <username>` per line, split at the
    /// first space. Fails on the first line without a space.
    pub fn parse(text: &str) -> (r: Result<AuthRegistry, TokensMalformed>)
        ensures
            r is Ok <==> well_formed_tokens(text@),
            r matches Ok(reg) ==> reg@ == pairs_map(parsed_pairs(lines(text@))),
            r matches Err(e) ==> {
                &&& e.line < lines(text@).len()
                &&& parse_line(lines(text@)[e.line as int]) is None
                &&& forall|i: int|
                    0 <= i < e.line ==> (#[trigger] parse_line(lines(text@)[i])) is Some
            },
    {
        let cs = chars_of(text);
        let mut reg = AuthRegistry::empty();
        let mut cur: Vec<char> = Vec::new();
        let mut n: usize = 0;
        let mut i: usize = 0;
        while i < cs.len()
            invariant
                cs@ == text@,
                i <= cs@.len(),
                n <= i,
                lines_acc(cs@.take(i as int)).1 == cur@,
                n == lines_acc(cs@.take(i as int)).0.len(),
                forall|j: int|
                    0 <= j < n ==> (#[trigger] parse_line(lines_acc(cs@.take(i as int)).0[j])) is Some,
                reg@ == pairs_map(parsed_pairs(lines_acc(cs@.take(i as int)).0)),
            decreases cs.len() - i,
        {
            let ghost prefix = cs@.take(i as int);
            assert(cs@.take(i + 1).drop_last() == prefix);
            if cs[i] == '\n' {
                let mut end = cur.len();
                if end > 0 && cur[end - 1] == '\r' {
                    end = end - 1;
                }
                assert(cur@.subrange(0, end as int) == strip_cr(cur@));
                match Self::split_line(&cur, end) {
                    Some((t, u)) => {
                        let ghost ls = lines_acc(prefix).0;
                        assert(parsed_pairs(ls.push(strip_cr(cur@))).drop_last()
                            == parsed_pairs(ls));
                        reg.insert(t, u);
                        n = n + 1;
                    }
                    None => {
                        proof {
                            let ls2 = lines_acc(cs@.take(i + 1)).0;
                            assert(ls2[n as int] == strip_cr(cur@));
                            Self::lemma_lines_prefix(cs@, (i + 1) as int, n as int);
                            assert forall|j: int| 0 <= j < n implies (#[trigger] parse_line(
                                lines(text@)[j],
                            )) is Some by {
                                Self::lemma_lines_prefix(cs@, (i + 1) as int, j);
                            }
                        }
                        return Err(TokensMalformed { line: n });
                    }
                }
                cur = Vec::new();
            } else {
                cur.push(cs[i]);
            }
            i = i + 1;
        }
        assert(cs@.take(cs@.len() as int) == cs@);
        if cur.len() > 0 {
            assert(cur@.subrange(0, cur@.len() as int) == cur@);
            match Self::split_line(&cur, cur.len()) {
                Some((t, u)) => {
                    let ghost ls = lines_acc(cs@).0;
                    assert(parsed_pairs(ls.push(cur@)).drop_last() == parsed_pairs(ls));
                    reg.insert(t, u);
                }
                None => {
                    return Err(TokensMalformed { line: n });
                }
            }
        }
        assert(well_formed_tokens(text@));
        Ok(reg)
    }

    /// The lines that a prefix of the text completes stay lines of the whole.
    proof fn lemma_lines_prefix(s: Seq<char>, i: int, n: int)
        requires
            0 <= i <= s.len(),
            0 <= n < lines_acc(s.take(i)).0.len(),
        ensures
            n < lines(s).len(),
            lines(s)[n] == lines_acc(s.take(i)).0[n],
        decreases s.len() - i,
    {
        if i < s.len() {
            assert(s.take(i + 1).drop_last() == s.take(i));
            Self::lemma_lines_prefix(s, i + 1, n);
        } else {
            assert(s.take(i) == s);
        }
    }

    /// Splits `l[..end]` at its first space.
    fn split_line(l: &Vec<char>, end: usize) -> (r: Option<(String, String)>)
        requires
            end <= l@.len(),
        ensures
            r is Some <==> parse_line(l@.take(end as int)) is Some,
            r matches Some(p) ==> parse_line(l@.take(end as int)) == Some((p.0@, p.1@)),
    {
        let ghost s = l@.take(end as int);
        let mut k: usize = 0;
        while k < end
            invariant
                k <= end <= l@.len(),
                s == l@.take(end as int),
                forall|j: int| 0 <= j < k ==> s[j] != ' ',
            decreases end - k,
        {
            if l[k] == ' ' {
                assert(is_first_space(s, k as int));
                assert forall|k2: int| is_first_space(s, k2) implies k2 == k by {
                    if k2 < k {
                    } else if k2 > k {
                        assert(s[k as int] == ' ');
                    }
                }
                return Some((string_of(l, 0, k), string_of(l, k + 1, end)));
            }
            k = k + 1;
        }
        assert(!exists|k: int| is_first_space(s, k));
        None
    }

    /// The username of a token.
    pub fn lookup(&self, token: &str) -> (r: Option<String>)
        ensures
            r is Some <==> self@.contains_key(token@),
            r matches Some(u) ==> u@ == self@[token@],
    {
        let t = chars_of(token);
        let ghost ps = self.pairs();
        let mut i: usize = self.entries.len();
        while i > 0
            invariant
                i <= self.entries@.len(),
                ps == self.pairs(),
                t@ == token@,
                forall|j: int| i <= j < ps.len() ==> ps[j].0 != token@,
            decreases i,
        {
            let e = &self.entries[i - 1];
            let ec = chars_of(e.0.as_str());
            if same_chars(&ec, &t) {
                proof { lemma_pairs_map_last(ps, i - 1); }
                return Some(e.1.clone());
            }
            i = i - 1;
        }
        proof { lemma_pairs_map_absent(ps, token@); }
        None
    }
}


proof fn lemma_pairs_map_last(ps: Seq<(Seq<char>, Seq<char>)>, i: int)
    requires
        0 <= i < ps.len(),
        forall|j: int| i < j < ps.len() ==> ps[j].0 != ps[i].0,
    ensures
        pairs_map(ps).contains_key(ps[i].0),
        pairs_map(ps)[ps[i].0] == ps[i].1,
    decreases ps.len(),
{
    if i < ps.len() - 1 {
        lemma_pairs_map_last(ps.drop_last(), i);
    }
}

proof fn lemma_pairs_map_absent(ps: Seq<(Seq<char>, Seq<char>)>, k: Seq<char>)
    requires
        forall|j: int| 0 <= j < ps.len() ==> ps[j].0 != k,
    ensures
        !pairs_map(ps).contains_key(k),
    decreases ps.len(),
{
    if ps.len() > 0 {
        lemma_pairs_map_absent(ps.drop_last(), k);
    }
}

} // verus!
