//! Every measurement of a text, found from left to right.

use vstd::prelude::*;

use crate::parser::parse_measure::measure_token;
use crate::parser::parse_measure::parse_measure_at;
use crate::parser::parse_measure::MeasureToken;
use crate::parser::parse_measure::Outcome;
use crate::parser::parse_measure::ParseFailure;
use crate::parser::parse_measure::TokenView;
use crate::parser::ParserInput;
use crate::text::chars_of;

verus! {

/// A text with the measurements found in it.
#[derive(Debug)]
pub struct Recipe<'a> {
    pub tokens: Vec<MeasureToken<'a>>,
    pub raw: &'a str,
}

/// Where the search goes on from `from`: behind the token that begins
/// there, or one character later where none does.
pub open spec fn next_start(text: Seq<char>, from: int) -> int {
    match measure_token(text, from) {
        Outcome::Match { end, .. } => if end > from {
            end
        } else {
            from + 1
        },
        _ => from + 1,
    }
}

/// The tokens of a text from `from` on: where a token begins, it is taken
/// and the search goes on behind it; where none does, whether for want of a
/// match or for a fraction over zero, the search goes on one character
/// later.
pub open spec fn recipe_tokens(text: Seq<char>, from: int) -> Seq<TokenView>
    decreases (if from <= text.len() {
        text.len() - from
    } else {
        0
    }),
{
    if from < 0 || from >= text.len() {
        Seq::empty()
    } else {
        let rest = recipe_tokens(text, next_start(text, from));
        match measure_token(text, from) {
            Outcome::Match { value, .. } => seq![value] + rest,
            _ => rest,
        }
    }
}

/// Each token is what the view at its index says of the text.
pub open spec fn tokens_read(
    tokens: Seq<MeasureToken>,
    text: Seq<char>,
    offset: nat,
    views: Seq<TokenView>,
) -> bool {
    &&& tokens.len() == views.len()
    &&& forall|i: int|
        0 <= i < tokens.len() ==> (#[trigger] tokens[i]).reads(text, offset, views[i])
            && tokens[i].wf()
}

/// Finds every measurement of a text. Text that is no measurement is passed
/// over, so this always succeeds.
pub fn parse_recipe<'a>(input: ParserInput<'a>) -> (r: Result<Recipe<'a>, ParseFailure>)
    ensures
        r matches Ok(recipe) && recipe.raw@ == input.text() && tokens_read(
            recipe.tokens@,
            input.text(),
            input.offset(),
            recipe_tokens(input.text(), 0),
        ),
{
    let chars = chars_of(input.input());
    let mut tokens: Vec<MeasureToken<'a>> = Vec::new();
    let mut at: usize = 0;
    let ghost text = input.text();
    let ghost mut done: Seq<TokenView> = Seq::empty();
    while at < chars.len()
        invariant
            text == input.text(),
            chars@ == text,
            0 <= at <= text.len(),
            done + recipe_tokens(text, at as int) == recipe_tokens(text, 0),
            tokens_read(tokens@, text, input.offset(), done),
        decreases text.len() - at,
    {
        match parse_measure_at(input, &chars, at) {
            Ok((end, token)) => {
                let ghost view = measure_token(text, at as int)->Match_value;
                proof {
                    assert(done.push(view) + recipe_tokens(text, end as int) =~= done
                        + recipe_tokens(text, at as int));
                    done = done.push(view);
                }
                tokens.push(token);
                at = end;
            },
            Err(_) => {
                at = at + 1;
            },
        }
    }
    proof {
        assert(recipe_tokens(text, text.len() as int) =~= Seq::<TokenView>::empty());
        assert(done + Seq::<TokenView>::empty() =~= done);
    }
    Ok(Recipe { tokens, raw: input.input() })
}

} // verus!
