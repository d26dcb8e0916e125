//! The written form of an option list: options separated by commas.

use vstd::prelude::*;
use crate::attribute::{lemma_views_push, views, MetaItem, MetaItemView};
use crate::error::ConfigError;

verus! {

/// One token of an option list.
#[derive(Debug, PartialEq, Eq)]
pub enum Token {
    /// An identifier.
    Word(String),
    /// A string literal, held as the text that it stands for.
    Text(String),
    /// An equals sign.
    Equals,
    /// A comma.
    Comma,
    /// Any other token.
    Other,
}

/// Mathematical model of a [`Token`].
pub enum TokenView {
    Word(Seq<char>),
    Text(Seq<char>),
    Equals,
    Comma,
    Other,
}

impl View for Token {
    type V = TokenView;

    open spec fn view(&self) -> TokenView {
        match self {
            Token::Word(word) => TokenView::Word(word@),
            Token::Text(text) => TokenView::Text(text@),
            Token::Equals => TokenView::Equals,
            Token::Comma => TokenView::Comma,
            Token::Other => TokenView::Other,
        }
    }
}

/// The option that a run of tokens between two commas is: a string alone, or
/// a name, an equals sign and a string; anything else is not understood.
pub open spec fn entry_of(part: Seq<TokenView>) -> MetaItemView {
    if part.len() == 1 && part[0] is Text {
        MetaItemView::Literal(part[0]->Text_0)
    } else if part.len() == 3 && part[0] is Word && part[1] is Equals && part[2] is Text {
        MetaItemView::NameValue(part[0]->Word_0, part[2]->Text_0)
    } else {
        MetaItemView::Other
    }
}

/// The runs of tokens between the commas of a list. There is one run more
/// than there are commas; a run may be empty.
pub open spec fn parts_of(tokens: Seq<TokenView>) -> Seq<Seq<TokenView>>
    decreases tokens.len(),
{
    if tokens.len() == 0 {
        seq![Seq::empty()]
    } else {
        let front = parts_of(tokens.drop_last());
        if tokens.last() is Comma {
            front.push(Seq::empty())
        } else {
            front.update(front.len() - 1, front.last().push(tokens.last()))
        }
    }
}

/// The tokens of runs with a comma between each two.
pub open spec fn joined(parts: Seq<Seq<TokenView>>) -> Seq<TokenView>
    decreases parts.len(),
{
    if parts.len() == 0 {
        Seq::empty()
    } else if parts.len() == 1 {
        parts[0]
    } else {
        joined(parts.drop_last()) + seq![TokenView::Comma] + parts.last()
    }
}

/// The runs that hold options: all runs but an empty last one, which is what
/// stands behind a closing comma, or what an empty list is.
pub open spec fn option_parts(tokens: Seq<TokenView>) -> Seq<Seq<TokenView>> {
    let parts = parts_of(tokens);
    if parts.last().len() == 0 {
        parts.drop_last()
    } else {
        parts
    }
}

/// The position of the first empty run.
pub open spec fn first_empty(parts: Seq<Seq<TokenView>>) -> Option<int>
    decreases parts.len(),
{
    if parts.len() == 0 {
        None
    } else if parts.last().len() == 0 && first_empty(parts.drop_last()) is None {
        Some(parts.len() - 1)
    } else {
        first_empty(parts.drop_last())
    }
}

/// The options that a list of tokens holds: one for each run between commas,
/// where a comma may close the list. A comma where an option is awaited is a
/// fault.
pub open spec fn entries_of(tokens: Seq<TokenView>) -> Result<Seq<MetaItemView>, ConfigError> {
    let parts = option_parts(tokens);
    match first_empty(parts) {
        Some(at) => Err(ConfigError::EmptyOption(at as usize)),
        None => Ok(parts.map_values(|part: Seq<TokenView>| entry_of(part))),
    }
}

/// Splitting at the commas loses nothing: the runs hold no comma, there is at
/// least one run, and the runs joined by commas are the tokens again.
pub proof fn lemma_parts_rejoin(tokens: Seq<TokenView>)
    ensures
        parts_of(tokens).len() >= 1,
        joined(parts_of(tokens)) == tokens,
        forall|at: int, inside: int|
            0 <= at < parts_of(tokens).len() && 0 <= inside < parts_of(tokens)[at].len() ==> !(
            #[trigger] parts_of(tokens)[at][inside] is Comma),
    decreases tokens.len(),
{
    if tokens.len() > 0 {
        let front = tokens.drop_last();
        lemma_parts_rejoin(front);
        let before = parts_of(front);
        let after = parts_of(tokens);
        if tokens.last() is Comma {
            assert(after.drop_last() =~= before);
            assert(joined(after) =~= tokens);
        } else {
            if before.len() == 1 {
                assert(joined(after) =~= tokens);
            } else {
                assert(after.drop_last() =~= before.drop_last());
                assert(after.last() =~= before.last().push(tokens.last()));
                assert(tokens =~= front.push(tokens.last()));
                assert(joined(after) =~= tokens);
            }
        }
    } else {
        assert(joined(parts_of(tokens)) =~= tokens);
    }
}

/// The position that is found holds an empty run, and no run before it is
/// empty; where none is found, no run is empty.
pub proof fn lemma_first_empty(parts: Seq<Seq<TokenView>>)
    ensures
        match first_empty(parts) {
            Some(at) => 0 <= at < parts.len() && parts[at].len() == 0 && forall|before: int|
                0 <= before < at ==> (#[trigger] parts[before]).len() > 0,
            None => forall|at: int| 0 <= at < parts.len() ==> (#[trigger] parts[at]).len() > 0,
        },
    decreases parts.len(),
{
    if parts.len() > 0 {
        let front = parts.drop_last();
        lemma_first_empty(front);
        match first_empty(front) {
            Some(at) => {
                assert(front[at] == parts[at]);
                assert forall|before: int| 0 <= before < at implies (#[trigger] parts[before]).len()
                    > 0 by {
                    assert(front[before] == parts[before]);
                }
            },
            None => {
                assert forall|at: int| 0 <= at < front.len() implies (#[trigger] parts[at]).len()
                    > 0 by {
                    assert(front[at] == parts[at]);
                }
            },
        }
    }
}

/// Reads the option that stands between two positions of a token list.
fn read_entry(tokens: &Vec<Token>, from: usize, to: usize) -> (entry: MetaItem)
    requires
        from <= to <= tokens.len(),
    ensures
        entry@ == entry_of(views(tokens@).subrange(from as int, to as int)),
{
    let ghost part = views(tokens@).subrange(from as int, to as int);
    if to - from == 1 {
        assert(part[0] == tokens@[from as int]@);
        match &tokens[from] {
            Token::Text(text) => MetaItem::Literal(text.clone()),
            _ => MetaItem::Other,
        }
    } else if to - from == 3 {
        assert(part[0] == tokens@[from as int]@);
        assert(part[1] == tokens@[from as int + 1]@);
        assert(part[2] == tokens@[from as int + 2]@);
        match (&tokens[from], &tokens[from + 1], &tokens[from + 2]) {
            (Token::Word(word), Token::Equals, Token::Text(text)) => MetaItem::NameValue(
                word.clone(),
                text.clone(),
            ),
            _ => MetaItem::Other,
        }
    } else {
        MetaItem::Other
    }
}

/// Reads a list of tokens as options separated by commas.
pub fn read_entries(tokens: &Vec<Token>) -> (read: Result<Vec<MetaItem>, ConfigError>)
    ensures
        match entries_of(views(tokens@)) {
            Ok(entries) => read is Ok && views(read->Ok_0@) == entries,
            Err(fault) => read == Err::<Vec<MetaItem>, ConfigError>(fault),
        },
{
    let mut entries: Vec<MetaItem> = Vec::new();
    let mut from: usize = 0;
    let mut at: usize = 0;
    let ghost all = views(tokens@);
    let ghost mut closed: Seq<Seq<TokenView>> = Seq::empty();
    proof {
        assert(all.take(0) =~= Seq::empty());
        assert(all.subrange(0, 0) =~= Seq::empty());
        assert(closed.push(all.subrange(0, 0)) =~= parts_of(all.take(0)));
        assert(views(entries@) =~= closed.map_values(|part: Seq<TokenView>| entry_of(part)));
    }
    while at < tokens.len()
        invariant
            from <= at <= tokens.len(),
            all == views(tokens@),
            parts_of(all.take(at as int)) == closed.push(all.subrange(from as int, at as int)),
            first_empty(closed) is None,
            views(entries@) == closed.map_values(|part: Seq<TokenView>| entry_of(part)),
            entries.len() == closed.len(),
        decreases tokens.len() - at,
    {
        proof {
            let next = all.take(at as int + 1);
            assert(next.drop_last() =~= all.take(at as int));
            assert(next.last() == tokens@[at as int]@);
        }
        match &tokens[at] {
            Token::Comma => {
                let ghost part = all.subrange(from as int, at as int);
                if from == at {
                    proof {
                        let open = closed.push(part);
                        assert(open.drop_last() =~= closed);
                        assert(first_empty(open) == Some(closed.len() as int));
                        let next = parts_of(all.take(at as int + 1));
                        assert(next == open.push(Seq::empty()));
                        assert(next.drop_last() =~= open);
                        lemma_empty_is_kept(all, at as int + 1, closed.len() as int);
                    }
                    return Err(ConfigError::EmptyOption(entries.len()));
                }
                let entry = read_entry(tokens, from, at);
                proof {
                    lemma_views_push(entries@, entry);
                    let open = closed.push(part);
                    assert(open.drop_last() =~= closed);
                    assert(first_empty(open) is None);
                    assert(open.map_values(|part: Seq<TokenView>| entry_of(part))
                        =~= closed.map_values(|part: Seq<TokenView>| entry_of(part)).push(
                        entry_of(part),
                    ));
                    closed = open;
                    assert(all.subrange(at as int + 1, at as int + 1) =~= Seq::empty());
                }
                entries.push(entry);
                from = at + 1;
            },
            _ => {
                proof {
                    let open = closed.push(all.subrange(from as int, at as int));
                    assert(all.subrange(from as int, at as int).push(tokens@[at as int]@)
                        =~= all.subrange(from as int, at as int + 1));
                    assert(open.update(
                        open.len() - 1,
                        open.last().push(tokens@[at as int]@),
                    ) =~= closed.push(all.subrange(from as int, at as int + 1)));
                }
            },
        }
        at += 1;
    }
    assert(all.take(at as int) =~= all);
    let ghost last = all.subrange(from as int, at as int);
    if from < at {
        let entry = read_entry(tokens, from, at);
        proof {
            lemma_views_push(entries@, entry);
            let open = closed.push(last);
            assert(open.drop_last() =~= closed);
            assert(open.map_values(|part: Seq<TokenView>| entry_of(part)) =~= closed.map_values(
                |part: Seq<TokenView>| entry_of(part),
            ).push(entry_of(last)));
        }
        entries.push(entry);
    } else {
        proof {
            assert(closed.push(last).drop_last() =~= closed);
        }
    }
    Ok(entries)
}

/// An empty run that a comma has closed stays where it is when more tokens
/// follow.
pub proof fn lemma_empty_is_kept(tokens: Seq<TokenView>, upto: int, at: int)
    requires
        0 <= upto <= tokens.len(),
        0 <= at < parts_of(tokens.take(upto)).len() - 1,
        first_empty(parts_of(tokens.take(upto)).drop_last()) == Some(at),
    ensures
        first_empty(option_parts(tokens)) == Some(at),
    decreases tokens.len() - upto,
{
    let now = parts_of(tokens.take(upto));
    if upto < tokens.len() {
        let next = tokens.take(upto + 1);
        assert(next.drop_last() =~= tokens.take(upto));
        let then = parts_of(next);
        lemma_prefix_keeps_first_empty(now.drop_last(), then.drop_last(), at);
        lemma_empty_is_kept(tokens, upto + 1, at);
    } else {
        assert(tokens.take(upto) =~= tokens);
        lemma_prefix_keeps_first_empty(now.drop_last(), option_parts(tokens), at);
    }
}

/// The first empty run among some runs is the first among more runs that
/// begin with the same.
pub proof fn lemma_prefix_keeps_first_empty(
    few: Seq<Seq<TokenView>>,
    many: Seq<Seq<TokenView>>,
    at: int,
)
    requires
        first_empty(few) == Some(at),
        few.len() <= many.len(),
        forall|each: int| 0 <= each < few.len() ==> few[each] == many[each],
    ensures
        first_empty(many) == Some(at),
    decreases many.len(),
{
    lemma_first_empty(few);
    if many.len() > few.len() {
        lemma_prefix_keeps_first_empty(few, many.drop_last(), at);
    } else {
        assert(few =~= many);
    }
}

} // verus!
