use super::trie::{entries_of, op_catalog, Trie};
use crate::text::whitespace;
use once_cell::sync::OnceCell;
use vstd::prelude::*;

verus! {

/// `once_cell::sync::OnceCell`: a cell that is written at most once. Its
/// content is not modelled.
#[verifier::external_type_specification]
#[verifier::external_body]
#[verifier::reject_recursive_types(T)]
pub struct ExOnceCell<T>(OnceCell<T>);

/// `OnceCell::new` makes an empty cell. Nothing is claimed of it.
pub assume_specification<T>[ OnceCell::<T>::new ]() -> (cell: OnceCell<T>);

/// The trie of the operator catalogue. Every value of this type holds
/// that trie and no other.
pub struct Catalogue {
    trie: Trie,
}

impl View for Catalogue {
    type V = Map<Seq<char>, usize>;

    /// The words of the trie held, each with its length.
    closed spec fn view(&self) -> Map<Seq<char>, usize> {
        self.trie@
    }
}

impl Catalogue {
    #[verifier::type_invariant]
    spec fn holds_catalogue(&self) -> bool {
        self.trie.wf() && self.trie@ == entries_of(op_catalog())
    }

    /// Builds the trie of the operator catalogue: the result holds every
    /// operator of the catalogue with its length, and nothing else.
    pub fn new() -> (c: Catalogue)
        ensures
            c@ == entries_of(op_catalog()),
    {
        Catalogue { trie: Trie::from_op_list() }
    }

    /// The trie of the operator catalogue.
    pub fn trie(&self) -> (t: &Trie)
        ensures
            t.wf(),
            t@ == self@,
            t@ == entries_of(op_catalog()),
            t@.dom() == op_catalog().to_set(),
    {
        proof {
            use_type_invariant(self);
        }
        assert(self.trie@.dom() =~= op_catalog().to_set());
        &self.trie
    }
}

/// The operator catalogue, built when it is first asked for and kept from
/// then on.
pub struct Operators {
    cell: OnceCell<Catalogue>,
}

impl Operators {
    /// A catalogue that is not built yet.
    pub fn new() -> (ops: Operators) {
        Operators { cell: OnceCell::new() }
    }

    /// `OnceCell::get_or_init` hands out the value in the cell and, where
    /// the cell is empty, first fills it with what the closure returns.
    /// Nothing is claimed of the value: that it holds the catalogue follows
    /// from its type.
    #[verifier::external_body]
    fn force(&self) -> (c: &Catalogue) {
        self.cell.get_or_init(|| Catalogue::new())
    }

    /// The trie of the operator catalogue.
    pub fn trie(&self) -> (t: &Trie)
        ensures
            t.wf(),
            t@ == entries_of(op_catalog()),
            t@.dom() == op_catalog().to_set(),
    {
        self.force().trie()
    }
}

/// Whether `c` is one of the six bracket characters.
pub open spec fn bracket_char(c: char) -> bool {
    c == '(' || c == ')' || c == '[' || c == ']' || c == '{' || c == '}'
}

/// Whether some operator of the catalogue begins with `c`.
pub open spec fn punctuation(c: char) -> bool {
    exists|w: Seq<char>| #[trigger] op_catalog().contains(w) && w.len() > 0 && w[0] == c
}

/// Whether `c` is one of the sixteen characters with which the operators
/// of the catalogue begin.
pub open spec fn operator_start(c: char) -> bool {
    c == '=' || c == '!' || c == '>' || c == '<' || c == '+' || c == '-' || c == '*' || c == '/' || c == '%' || c
        == '&' || c == '|' || c == '^' || c == '~' || c == '?' || c == ':' || c == '.'
}

/// The characters that can begin an operator are the first characters of
/// the catalogue's entries, and no others.
pub proof fn lemma_punctuation(c: char)
    ensures
        punctuation(c) == operator_start(c),
{
    reveal_strlit("=");
    reveal_strlit("==");
    reveal_strlit("!=");
    reveal_strlit(">");
    reveal_strlit("<");
    reveal_strlit(">=");
    reveal_strlit("<=");
    reveal_strlit("+");
    reveal_strlit("-");
    reveal_strlit("*");
    reveal_strlit("/");
    reveal_strlit("%");
    reveal_strlit("++");
    reveal_strlit("--");
    reveal_strlit("+=");
    reveal_strlit("-=");
    reveal_strlit("*=");
    reveal_strlit("/=");
    reveal_strlit("%=");
    reveal_strlit("<<");
    reveal_strlit(">>");
    reveal_strlit("&");
    reveal_strlit("|");
    reveal_strlit("^");
    reveal_strlit("~");
    reveal_strlit("&&");
    reveal_strlit("||");
    reveal_strlit("!");
    reveal_strlit("|>");
    reveal_strlit("?");
    reveal_strlit(":");
    reveal_strlit("::");
    reveal_strlit("..");
    reveal_strlit(".");
    if c == '=' {
        assert(op_catalog()[0] == "="@);
        assert(op_catalog().contains("="@));
    }
    if c == '!' {
        assert(op_catalog()[2] == "!="@);
        assert(op_catalog().contains("!="@));
    }
    if c == '>' {
        assert(op_catalog()[3] == ">"@);
        assert(op_catalog().contains(">"@));
    }
    if c == '<' {
        assert(op_catalog()[4] == "<"@);
        assert(op_catalog().contains("<"@));
    }
    if c == '+' {
        assert(op_catalog()[7] == "+"@);
        assert(op_catalog().contains("+"@));
    }
    if c == '-' {
        assert(op_catalog()[8] == "-"@);
        assert(op_catalog().contains("-"@));
    }
    if c == '*' {
        assert(op_catalog()[9] == "*"@);
        assert(op_catalog().contains("*"@));
    }
    if c == '/' {
        assert(op_catalog()[10] == "/"@);
        assert(op_catalog().contains("/"@));
    }
    if c == '%' {
        assert(op_catalog()[11] == "%"@);
        assert(op_catalog().contains("%"@));
    }
    if c == '&' {
        assert(op_catalog()[21] == "&"@);
        assert(op_catalog().contains("&"@));
    }
    if c == '|' {
        assert(op_catalog()[22] == "|"@);
        assert(op_catalog().contains("|"@));
    }
    if c == '^' {
        assert(op_catalog()[23] == "^"@);
        assert(op_catalog().contains("^"@));
    }
    if c == '~' {
        assert(op_catalog()[24] == "~"@);
        assert(op_catalog().contains("~"@));
    }
    if c == '?' {
        assert(op_catalog()[29] == "?"@);
        assert(op_catalog().contains("?"@));
    }
    if c == ':' {
        assert(op_catalog()[30] == ":"@);
        assert(op_catalog().contains(":"@));
    }
    if c == '.' {
        assert(op_catalog()[32] == ".."@);
        assert(op_catalog().contains(".."@));
    }
    if punctuation(c) {
        let w = choose|w: Seq<char>| #[trigger] op_catalog().contains(w) && w.len() > 0 && w[0] == c;
        let i = choose|i: int| 0 <= i < op_catalog().len() && op_catalog()[i] == w;
        assert(0 <= i < 34);
    }
}

/// Whether `c` is a bracket.
pub fn is_bracket(c: char) -> (b: bool)
    ensures
        b == bracket_char(c),
{
    match c {
        '(' | ')' | '[' | ']' | '{' | '}' => true,
        _ => false,
    }
}

/// Whether `ops`, a trie of the operator catalogue, has a word that begins
/// with `c`.
pub fn starts_operator(ops: &Trie, c: char) -> (b: bool)
    requires
        ops.wf(),
        ops@.dom() == op_catalog().to_set(),
    ensures
        b == punctuation(c),
{
    let b = ops.has_start(c);
    proof {
        if b {
            let w = choose|w: Seq<char>| #[trigger]
                ops@.contains_key(w) && w.len() > 0 && w[0] == c;
            assert(op_catalog().to_set().contains(w));
            assert(op_catalog().contains(w));
        }
        if punctuation(c) {
            let w = choose|w: Seq<char>| #[trigger]
                op_catalog().contains(w) && w.len() > 0 && w[0] == c;
            assert(op_catalog().to_set().contains(w));
            assert(ops@.contains_key(w));
        }
    }
    b
}

/// Whether `c` can begin an operator.
pub fn is_punctuation(c: char) -> (b: bool)
    ensures
        b == punctuation(c),
{
    let ops = Operators::new();
    starts_operator(ops.trie(), c)
}

/// Whether `c` is whitespace or can begin an operator.
pub fn is_punctuation_or_whitespace(c: char) -> (b: bool)
    ensures
        b == (whitespace(c) || punctuation(c)),
{
    c.is_whitespace() || is_punctuation(c)
}

} // verus!
