use crate::text::chars_of;
use std::collections::HashMap;
use vstd::prelude::*;

verus! {

broadcast use vstd::std_specs::hash::group_hash_axioms;

/// A prefix tree over words. Each node may carry an end marker, which
/// records the length of the word that ends there.
pub struct Trie {
    end: Option<usize>,
    children: HashMap<u32, Trie>,
}

impl View for Trie {
    type V = Map<Seq<char>, usize>;

    /// The words of the trie, each with the length recorded at its end.
    closed spec fn view(&self) -> Map<Seq<char>, usize> {
        Map::new(|w: Seq<char>| self.marker(w) is Some, |w: Seq<char>| self.marker(w)->0)
    }
}

/// The key under which a node files the child for `c`: its code point.
spec fn key_of(c: char) -> u32 {
    c as u32
}

/// Distinct characters have distinct keys.
proof fn lemma_key_injective(a: char, b: char)
    ensures
        key_of(a) == key_of(b) <==> a == b,
{
}

/// The entries that pushing every word of `list` leaves in an empty trie.
pub open spec fn entries_of(list: Seq<Seq<char>>) -> Map<Seq<char>, usize> {
    Map::new(|w: Seq<char>| list.contains(w), |w: Seq<char>| w.len() as usize)
}

/// The operator lexemes of the language.
pub open spec fn op_catalog() -> Seq<Seq<char>> {
    seq![
        "="@, "=="@, "!="@, ">"@, "<"@, ">="@, "<="@,
        "+"@, "-"@, "*"@, "/"@, "%"@,
        "++"@, "--"@,
        "+="@, "-="@, "*="@, "/="@, "%="@,
        "<<"@, ">>"@, "&"@, "|"@, "^"@, "~"@,
        "&&"@, "||"@, "!"@,
        "|>"@, "?"@, ":"@, "::"@,
        ".."@,
        "."@,
    ]
}

impl Trie {
    /// The end marker of the node that the path `w` leads to, if there is
    /// such a node and it is marked.
    spec fn marker(&self, w: Seq<char>) -> Option<usize>
        decreases w.len(),
    {
        if w.len() == 0 {
            self.end
        } else if self.children@.contains_key(key_of(w[0])) {
            self.children@[key_of(w[0])].marker(w.drop_first())
        } else {
            None
        }
    }

    /// Whether the path `p` leads to a node.
    spec fn reaches(&self, p: Seq<char>) -> bool
        decreases p.len(),
    {
        p.len() == 0 || (self.children@.contains_key(key_of(p[0])) && self.children@[key_of(p[0])].reaches(
            p.drop_first(),
        ))
    }

    /// Every node below the root lies on the path of some word.
    pub closed spec fn wf(&self) -> bool {
        forall|p: Seq<char>|
            p.len() > 0 && #[trigger] self.reaches(p) ==> exists|w: Seq<char>|
                (#[trigger] self.marker(p + w)) is Some
    }

    /// Whether some word of the trie begins with `c`.
    pub open spec fn starts(&self, c: char) -> bool {
        exists|w: Seq<char>| #[trigger] self@.contains_key(w) && w.len() > 0 && w[0] == c
    }

    /// The entries that remain after the leading `c` is taken off the
    /// words that begin with it.
    pub open spec fn after(&self, c: char) -> Map<Seq<char>, usize> {
        Map::new(
            |w: Seq<char>| self@.contains_key(seq![c] + w),
            |w: Seq<char>| self@[seq![c] + w],
        )
    }

    proof fn lemma_step(&self, c: char, w: Seq<char>)
        ensures
            self.marker(seq![c] + w) == if self.children@.contains_key(key_of(c)) {
                self.children@[key_of(c)].marker(w)
            } else {
                None
            },
            self.reaches(seq![c] + w) == (self.children@.contains_key(key_of(c))
                && self.children@[key_of(c)].reaches(w)),
    {
        assert((seq![c] + w).drop_first() == w);
    }

    proof fn lemma_child_wf(&self, c: char)
        requires
            self.wf(),
            self.children@.contains_key(key_of(c)),
        ensures
            self.children@[key_of(c)].wf(),
    {
        let child = self.children@[key_of(c)];
        assert forall|p: Seq<char>| p.len() > 0 && #[trigger] child.reaches(p) implies exists|
            w: Seq<char>,
        |
            (#[trigger] child.marker(p + w)) is Some by {
            self.lemma_step(c, p);
            assert(self.reaches(seq![c] + p));
            let w = choose|w: Seq<char>| (#[trigger] self.marker((seq![c] + p) + w)) is Some;
            assert((seq![c] + p) + w == seq![c] + (p + w));
            self.lemma_step(c, p + w);
            assert(child.marker(p + w) is Some);
        }
    }

    /// A node without marker and without children.
    fn empty() -> (t: Trie)
        ensures
            t@ == Map::<Seq<char>, usize>::empty(),
            t.wf(),
            forall|w: Seq<char>| t.marker(w) is None,
            forall|p: Seq<char>| t.reaches(p) <==> p.len() == 0,
    {
        let t = Trie { end: None, children: HashMap::new() };
        assert(t@ =~= Map::<Seq<char>, usize>::empty());
        t
    }

    /// A trie without words.
    pub fn new() -> (t: Trie)
        ensures
            t@ == Map::<Seq<char>, usize>::empty(),
            t.wf(),
    {
        Trie::empty()
    }

    /// The trie of the words of `list`.
    pub fn from_list(list: &[&str]) -> (t: Trie)
        ensures
            t.wf(),
            t@ == entries_of(list@.map_values(|s: &str| s@)),
    {
        let mut trie = Trie::new();
        let ghost words = list@.map_values(|s: &str| s@);
        let mut i: usize = 0;
        while i < list.len()
            invariant
                i <= list.len(),
                words == list@.map_values(|s: &str| s@),
                trie.wf(),
                trie@ == entries_of(words.take(i as int)),
            decreases list.len() - i,
        {
            let word = list[i];
            trie.push(word);
            proof {
                assert(words[i as int] == word@);
                assert(words.take(i + 1) == words.take(i as int).push(word@));
                assert forall|w: Seq<char>| words.take(i + 1).contains(w) <==> (words.take(
                    i as int,
                ).contains(w) || w == word@) by {
                    if words.take(i as int).contains(w) {
                        let k = choose|k: int|
                            0 <= k < words.take(i as int).len() && words.take(i as int)[k] == w;
                        assert(words.take(i + 1)[k] == w);
                    }
                    if w == word@ {
                        assert(words.take(i + 1)[i as int] == w);
                    }
                }
                assert forall|w: Seq<char>|
                    trie@.contains_key(w) <==> #[trigger] entries_of(words.take(i + 1)).contains_key(
                        w,
                    ) by {
                    assert(entries_of(words.take(i as int)).contains_key(w) <==> words.take(
                        i as int,
                    ).contains(w));
                }
                assert forall|w: Seq<char>| trie@.contains_key(w) implies #[trigger] trie@[w]
                    == entries_of(words.take(i + 1))[w] by {
                    assert(entries_of(words.take(i + 1)).contains_key(w));
                    if w != word@ {
                        assert(entries_of(words.take(i as int)).contains_key(w));
                    }
                }
                assert(trie@ =~= entries_of(words.take(i + 1)));
            }
            i += 1;
        }
        assert(words.take(i as int) == words);
        trie
    }

    /// The trie of the operator catalogue.
    pub fn from_op_list() -> (t: Trie)
        ensures
            t.wf(),
            t@ == entries_of(op_catalog()),
    {
        let list: Vec<&str> = vec![
            "=", "==", "!=", ">", "<", ">=", "<=",
            "+", "-", "*", "/", "%",
            "++", "--",
            "+=", "-=", "*=", "/=", "%=",
            "<<", ">>", "&", "|", "^", "~",
            "&&", "||", "!",
            "|>", "?", ":", "::",
            "..",
            ".",
        ];
        let t = Trie::from_list(list.as_slice());
        assert(list@.map_values(|s: &str| s@) =~= op_catalog());
        t
    }

    fn push_internal(&mut self, word: &Vec<char>, idx: usize) -> (r: Option<usize>)
        requires
            idx <= word.len(),
        ensures
            r == Some(word.len()),
            forall|w: Seq<char>|
                #[trigger] final(self).marker(w) == if w == word@.skip(idx as int) {
                    Some(word.len())
                } else {
                    old(self).marker(w)
                },
            forall|p: Seq<char>|
                #[trigger] final(self).reaches(p) == (old(self).reaches(p) || p.is_prefix_of(
                    word@.skip(idx as int),
                )),
        decreases word.len() - idx,
    {
        let len = word.len();
        if idx == len {
            self.end = Some(len);
            proof {
                assert(word@.skip(idx as int) == Seq::<char>::empty());
                assert forall|w: Seq<char>|
                    #[trigger] self.marker(w) == if w == word@.skip(idx as int) {
                        Some(word.len())
                    } else {
                        old(self).marker(w)
                    } by {
                    if w.len() == 0 {
                        assert(w == Seq::<char>::empty());
                    }
                }
                assert forall|p: Seq<char>|
                    #[trigger] self.reaches(p) == (old(self).reaches(p) || p.is_prefix_of(
                        word@.skip(idx as int),
                    )) by {}
            }
            return self.end;
        }
        let letter = word[idx];
        let key = letter as u32;
        assert(key == key_of(letter));
        let mut child = match self.children.remove(&key) {
            Some(c) => c,
            None => Trie::empty(),
        };
        let ghost before = child;
        let r = child.push_internal(word, idx + 1);
        self.children.insert(key, child);
        proof {
            let suffix = word@.skip(idx as int);
            let rest = word@.skip(idx + 1);
            assert(suffix.len() > 0 && suffix[0] == letter);
            assert(suffix.drop_first() == rest);
            assert forall|w: Seq<char>|
                #[trigger] self.marker(w) == if w == suffix {
                    Some(word.len())
                } else {
                    old(self).marker(w)
                } by {
                if w.len() > 0 && w[0] == letter {
                    assert(key_of(w[0]) == key);
                    assert(self.marker(w) == child.marker(w.drop_first()));
                    if w.drop_first() == rest {
                        assert forall|i: int| 0 <= i < w.len() implies w[i] == suffix[i] by {
                            if i > 0 {
                                assert(w.drop_first()[i - 1] == rest[i - 1]);
                            }
                        }
                        assert(w =~= suffix);
                    }
                    if old(self).children@.contains_key(key) {
                        assert(before == old(self).children@[key]);
                    } else {
                        assert(before.marker(w.drop_first()) is None);
                    }
                } else if w.len() > 0 {
                    lemma_key_injective(w[0], letter);
                    assert(key_of(w[0]) != key);
                    assert(w != suffix);
                } else {
                    assert(w != suffix);
                }
            }
            assert forall|p: Seq<char>|
                #[trigger] self.reaches(p) == (old(self).reaches(p) || p.is_prefix_of(suffix)) by {
                if p.len() > 0 {
                    let q = p.drop_first();
                    lemma_key_injective(p[0], letter);
                    if p[0] == letter {
                        assert(self.reaches(p) == child.reaches(q));
                        if old(self).children@.contains_key(key) {
                            assert(before == old(self).children@[key]);
                        }
                        if q.is_prefix_of(rest) {
                            assert forall|i: int| 0 <= i < p.len() implies p[i] == suffix[i] by {
                                if i > 0 {
                                    assert(q[i - 1] == rest.subrange(0, q.len() as int)[i - 1]);
                                }
                            }
                            assert(p =~= suffix.subrange(0, p.len() as int));
                        }
                        if p.is_prefix_of(suffix) {
                            assert forall|i: int| 0 <= i < q.len() implies q[i] == rest[i] by {
                                assert(p[i + 1] == suffix.subrange(0, p.len() as int)[i + 1]);
                            }
                            assert(q =~= rest.subrange(0, q.len() as int));
                        }
                    } else {
                        assert(!p.is_prefix_of(suffix)) by {
                            if p.is_prefix_of(suffix) {
                                assert(p[0] == suffix.subrange(0, p.len() as int)[0]);
                            }
                        }
                    }
                }
            }
        }
        r
    }

    /// Adds `word` to the trie and records its length at its end.
    pub fn push(&mut self, word: &str) -> (b: bool)
        requires
            old(self).wf(),
        ensures
            b,
            final(self).wf(),
            final(self)@ == old(self)@.insert(word@, word@.len() as usize),
    {
        let chars = chars_of(word);
        let r = self.push_internal(&chars, 0);
        proof {
            assert(chars@.skip(0) == chars@);
            assert(self@ =~= old(self)@.insert(word@, word@.len() as usize));
            assert forall|p: Seq<char>| p.len() > 0 && #[trigger] self.reaches(p) implies exists|
                w: Seq<char>,
            |
                (#[trigger] self.marker(p + w)) is Some by {
                if old(self).reaches(p) {
                    let w = choose|w: Seq<char>| (#[trigger] old(self).marker(p + w)) is Some;
                    assert(self.marker(p + w) is Some);
                } else {
                    let w = chars@.skip(p.len() as int);
                    assert(p + w == chars@);
                    assert(self.marker(p + w) is Some);
                }
            }
        }
        match r {
            Some(_) => true,
            _ => false,
        }
    }

    fn has_internal(&self, word: &Vec<char>, idx: usize) -> (r: Option<usize>)
        requires
            idx <= word.len(),
        ensures
            r == self.marker(word@.skip(idx as int)),
        decreases word.len() - idx,
    {
        if idx == word.len() {
            self.end
        } else {
            let letter = word[idx];
            let key = letter as u32;
        assert(key == key_of(letter));
            proof {
                assert(word@.skip(idx as int).drop_first() == word@.skip(idx + 1));
            }
            match self.children.get(&key) {
                None => None,
                Some(subtrie) => subtrie.has_internal(word, idx + 1),
            }
        }
    }

    /// Whether `word` is one of the trie's words.
    pub fn has(&self, word: &str) -> (b: bool)
        ensures
            b == self@.contains_key(word@),
    {
        let chars = chars_of(word);
        assert(chars@.skip(0) == chars@);
        self.has_internal(&chars, 0).is_some()
    }

    fn has_prefix_internal(&self, word: &Vec<char>, idx: usize) -> (r: Option<usize>)
        requires
            idx <= word.len(),
        ensures
            r is Some <==> (idx == word.len() || self.marker(word@.skip(idx as int)) is Some),
    {
        if idx == word.len() {
            Some(idx)
        } else {
            let letter = word[idx];
            let key = letter as u32;
        assert(key == key_of(letter));
            proof {
                assert(word@.skip(idx as int).drop_first() == word@.skip(idx + 1));
            }
            match self.children.get(&key) {
                None => None,
                Some(subtrie) => subtrie.has_internal(word, idx + 1),
            }
        }
    }

    /// True of the empty word; of any other word, true exactly when it is
    /// one of the trie's words.
    pub fn has_prefix(&self, word: &str) -> (b: bool)
        ensures
            b == (word@.len() == 0 || self@.contains_key(word@)),
    {
        let chars = chars_of(word);
        assert(chars@.skip(0) == chars@);
        self.has_prefix_internal(&chars, 0).is_some()
    }

    /// Whether some word of the trie begins with `ch`.
    pub fn has_start(&self, ch: char) -> (b: bool)
        requires
            self.wf(),
        ensures
            b == self.starts(ch),
    {
        let key = ch as u32;
        assert(key == key_of(ch));
        let b = self.children.contains_key(&key);
        proof {
            if b {
                let p = seq![ch];
                self.lemma_step(ch, Seq::empty());
                assert(p + Seq::<char>::empty() == p);
                assert(self.reaches(p));
                let w = choose|w: Seq<char>| (#[trigger] self.marker(p + w)) is Some;
                assert(self@.contains_key(p + w));
                assert((p + w)[0] == ch);
            }
            if self.starts(ch) {
                let w = choose|w: Seq<char>| #[trigger]
                    self@.contains_key(w) && w.len() > 0 && w[0] == ch;
                assert(self.marker(w) is Some);
            }
        }
        b
    }

    /// The trie of what may follow a leading `c`, when some word begins with it.
    pub fn get(&self, c: char) -> (r: Option<&Trie>)
        requires
            self.wf(),
        ensures
            match r {
                Some(t) => self.starts(c) && t.wf() && t@ == self.after(c),
                None => !self.starts(c),
            },
    {
        let key = c as u32;
        assert(key == key_of(c));
        let r = self.children.get(&key);
        proof {
            if self.starts(c) {
                let w = choose|w: Seq<char>| #[trigger]
                    self@.contains_key(w) && w.len() > 0 && w[0] == c;
                assert(self.marker(w) is Some);
            }
            match r {
                Some(t) => {
                    self.lemma_child_wf(c);
                    let p = seq![c];
                    self.lemma_step(c, Seq::empty());
                    assert(p + Seq::<char>::empty() == p);
                    assert(self.reaches(p));
                    let w = choose|w: Seq<char>| (#[trigger] self.marker(p + w)) is Some;
                    assert(self@.contains_key(p + w));
                    assert((p + w)[0] == c);
                    assert forall|w: Seq<char>|
                        t.marker(w) == #[trigger] self.marker(seq![c] + w) by {
                        self.lemma_step(c, w);
                    }
                    assert(t@ =~= self.after(c));
                },
                None => {},
            }
        }
        r
    }

    /// Whether the empty word is one of the trie's words: whether the path
    /// walked so far spells a whole word.
    pub fn is_leaf(&self) -> (b: bool)
        ensures
            b == self@.contains_key(Seq::<char>::empty()),
    {
        self.end.is_some()
    }

    /// The length recorded for the word that ends at this node, if one does.
    pub fn end(&self) -> (r: Option<usize>)
        ensures
            r == if self@.contains_key(Seq::<char>::empty()) {
                Some(self@[Seq::<char>::empty()])
            } else {
                None
            },
    {
        self.end
    }
}

} // verus!
