//! The statement entities that the scanner produces. Every produced value
//! borrows from the scanned input; nothing owns a copy of the source text.

use vstd::prelude::*;

verus! {

broadcast use vstd::std_specs::vec::axiom_vec_index_decreases, vstd::std_specs::vec::axiom_vec_decreases_to_view, vstd::seq::axiom_seq_index_decreases, vstd::seq::axiom_seq_subrange_decreases;

/// The views of a sequence of borrowed string slices, element by element.
pub open spec fn str_views(v: Seq<&str>) -> Seq<Seq<char>> {
    Seq::new(v.len(), |i: int| v[i]@)
}

/// The models of a sequence of statements, element by element.
pub open spec fn stmts_view(v: Seq<Statement>) -> Seq<StatementView>
    decreases v,
{
    if v.len() == 0 {
        Seq::empty()
    } else {
        seq![v[0]@] + stmts_view(v.subrange(1, v.len() as int))
    }
}

/// Ghost model of an [`Include`]: the same record over mathematical types.
pub ghost struct IncludeView {
    pub path: Seq<char>,
    pub content: Option<Seq<char>>,
    pub arguments: Seq<Seq<char>>,
}

/// Ghost model of a [`Statement`].
pub ghost enum StatementView {
    Procedure(Seq<StatementView>),
    Function(Seq<StatementView>),
    Include(IncludeView),
    Comment(Seq<char>),
}

/// Appending one statement extends the modelled sequence by its model.
pub proof fn lemma_stmts_view_push(v: Seq<Statement>, s: Statement)
    ensures
        stmts_view(v.push(s)) == stmts_view(v) + seq![s@],
    decreases v.len(),
{
    let w = v.push(s);
    if v.len() == 0 {
        assert(stmts_view(w) == seq![w[0]@] + stmts_view(w.subrange(1, 1)));
        assert(w.subrange(1, 1) =~= Seq::<Statement>::empty());
        assert(stmts_view(Seq::<Statement>::empty()) == Seq::<StatementView>::empty());
        assert(v =~= Seq::<Statement>::empty());
        assert(stmts_view(w) =~= stmts_view(v) + seq![s@]);
    } else {
        let tail = v.subrange(1, v.len() as int);
        lemma_stmts_view_push(tail, s);
        assert(stmts_view(w) == seq![w[0]@] + stmts_view(w.subrange(1, w.len() as int)));
        assert(w.subrange(1, w.len() as int) =~= tail.push(s));
        assert(stmts_view(v) == seq![v[0]@] + stmts_view(tail));
        assert(stmts_view(w) =~= stmts_view(v) + seq![s@]);
    }
}

/// One include-directive occurrence: the target path, the optionally
/// resolved content (never set by the scanner itself; an external resolver
/// may fill it in on a copy), and the positional arguments in the order
/// they appeared in the directive body.
#[derive(Clone, Debug, PartialEq)]
pub struct Include<'a> {
    pub path: &'a str,
    pub content: Option<&'a str>,
    pub arguments: Vec<&'a str>,
}

impl<'a> View for Include<'a> {
    type V = IncludeView;

    open spec fn view(&self) -> IncludeView {
        IncludeView {
            path: self.path@,
            content: match self.content {
                Some(c) => Some(c@),
                None => None,
            },
            arguments: str_views(self.arguments@),
        }
    }
}

/// What the scanner can recognize. `Procedure` and `Function` are reserved
/// container variants for a future full-grammar parser; the scanner never
/// constructs them.
#[derive(Debug, PartialEq)]
pub enum Statement<'a> {
    Procedure(Box<Vec<Statement<'a>>>),
    Function(Box<Vec<Statement<'a>>>),
    Include(Include<'a>),
    Comment(&'a str),
}

impl<'a> View for Statement<'a> {
    type V = StatementView;

    open spec fn view(&self) -> StatementView
        decreases self,
    {
        match self {
            Statement::Procedure(v) => StatementView::Procedure(stmts_view(v@)),
            Statement::Function(v) => StatementView::Function(stmts_view(v@)),
            Statement::Include(inc) => StatementView::Include(inc@),
            Statement::Comment(c) => StatementView::Comment(c@),
        }
    }
}

impl<'a> Default for Include<'a> {
    /// An empty directive: empty path, no content, no arguments.
    fn default() -> (r: Self)
        ensures
            r@.path.len() == 0,
            r@.content is None,
            r@.arguments.len() == 0,
    {
        proof {
            reveal_strlit("");
        }
        Include { path: "", content: None, arguments: Vec::new() }
    }
}

} // verus!
