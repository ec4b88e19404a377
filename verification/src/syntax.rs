//! Errors of the structural parsing stage, and the structural parser: a
//! recursive descent over the flat token sequence that splits it into
//! nested option structures and builds the syntax tree.

use vstd::prelude::*;

use crate::ast::{
    asts_view, lemma_asts_view_push, pairs_view, params_model, spec_check_syntax, token_ast_model,
    Ast, AstModel,
};
use crate::slice_helper::{nonsep_end, spec_groups, split_with_head_and_separator};
use crate::token::{models, subvec_tokens, Sequence, Token, TokenModel};
use vstd::pervasive::unreached;

verus! {

/// Errors of the structural parser. Variants that concern one token carry
/// that token, so a caller can report which token offended.
#[derive(Debug)]
pub enum SyntaxError {
    /// an option (column or table) with an empty body
    NoOption(Token),
    /// a directive where an option name was not allowed
    UnknownOptionName(Token),
    /// a token that cannot open an option, or a parameter out of place
    UnknownOptionParam(Token),
    /// fewer tokens than the smallest viable program
    TooShort,
    /// a validated tree was expected but validation failed
    CorrectSyntax,
    /// malformed structure with no more precise description
    UnknownError,
}

/// Mathematical model of a structural error.
pub ghost enum SyntaxErrorModel {
    NoOption(TokenModel),
    UnknownOptionName(TokenModel),
    UnknownOptionParam(TokenModel),
    TooShort,
    CorrectSyntax,
    UnknownError,
}

impl View for SyntaxError {
    type V = SyntaxErrorModel;

    open spec fn view(&self) -> SyntaxErrorModel {
        match self {
            SyntaxError::NoOption(t) => SyntaxErrorModel::NoOption(t@),
            SyntaxError::UnknownOptionName(t) => SyntaxErrorModel::UnknownOptionName(t@),
            SyntaxError::UnknownOptionParam(t) => SyntaxErrorModel::UnknownOptionParam(t@),
            SyntaxError::TooShort => SyntaxErrorModel::TooShort,
            SyntaxError::CorrectSyntax => SyntaxErrorModel::CorrectSyntax,
            SyntaxError::UnknownError => SyntaxErrorModel::UnknownError,
        }
    }
}

// ---------------------------------------------------------------------------
// the structural parser, as a specification
// ---------------------------------------------------------------------------

/// Index of the first closing brace at or after `from`, or the end.
pub open spec fn rbrace_end(ts: Seq<TokenModel>, from: int) -> int
    decreases ts.len() - from,
    when 0 <= from <= ts.len()
{
    if from >= ts.len() {
        from
    } else if ts[from] is RMidParen {
        from
    } else {
        rbrace_end(ts, from + 1)
    }
}

pub proof fn lemma_rbrace_end_bounds(ts: Seq<TokenModel>, from: int)
    requires
        0 <= from <= ts.len(),
    ensures
        from <= rbrace_end(ts, from) <= ts.len(),
        forall|j: int| from <= j < rbrace_end(ts, from) ==> !(#[trigger] ts[j] is RMidParen),
        rbrace_end(ts, from) == ts.len() || ts[rbrace_end(ts, from)] is RMidParen,
    decreases ts.len() - from,
{
    if from < ts.len() && !(ts[from] is RMidParen) {
        lemma_rbrace_end_bounds(ts, from + 1);
    }
}

proof fn lemma_rbrace_steps(ts: Seq<TokenModel>, from: int, i: int)
    requires
        0 <= from <= i <= ts.len(),
        forall|j: int| from <= j < i ==> !(#[trigger] ts[j] is RMidParen),
    ensures
        rbrace_end(ts, from) == rbrace_end(ts, i),
    decreases i - from,
{
    if from < i {
        lemma_rbrace_steps(ts, from + 1, i);
    }
}

/// One option entry's tree node: a column option for a bare name, a table
/// option for a directive, with the split parameter groups as its body.
pub open spec fn option_model(token: TokenModel, body: Seq<TokenModel>) -> AstModel {
    if token is Name {
        AstModel::ColumnOption {
            option_name: Box::new(token_ast_model(token)),
            option_params: Box::new(AstModel::Group(params_model(spec_groups(body, 0)))),
        }
    } else {
        AstModel::TableOption {
            option_name: Box::new(token_ast_model(token)),
            option_params: Box::new(AstModel::Group(params_model(spec_groups(body, 0)))),
        }
    }
}

/// The option sequence parsed from a token run, or the error on which
/// parsing stops: each entry is a bare name or directive, with its body
/// between braces (a directive may omit the braces for zero parameters).
pub open spec fn spec_parse_options(ts: Seq<TokenModel>) -> Result<Seq<AstModel>, SyntaxErrorModel>
    decreases ts.len(),
    via spec_parse_options_decreases
{
    if ts.len() == 0 {
        Ok(Seq::empty())
    } else {
        let token = ts[0];
        if token is Name || token is NameColon {
            if ts.len() >= 2 && ts[1] is LMidParen {
                let rb = rbrace_end(ts, 2);
                if rb >= ts.len() {
                    Err(SyntaxErrorModel::UnknownError)
                } else {
                    let body = ts.subrange(2, rb);
                    let rest = ts.subrange(rb + 1, ts.len() as int);
                    if body.len() == 0 {
                        Err(SyntaxErrorModel::NoOption(token))
                    } else if nonsep_end(body, 0) != 0 {
                        Err(SyntaxErrorModel::UnknownOptionParam(body[0]))
                    } else if spec_groups(body, 0).len() == 0 {
                        Err(SyntaxErrorModel::NoOption(token))
                    } else {
                        match spec_parse_options(rest) {
                            Ok(more) => Ok(seq![option_model(token, body)] + more),
                            Err(e) => Err(e),
                        }
                    }
                }
            } else if token is NameColon {
                let opt = AstModel::TableOption {
                    option_name: Box::new(token_ast_model(token)),
                    option_params: Box::new(AstModel::Group(Seq::empty())),
                };
                match spec_parse_options(ts.drop_first()) {
                    Ok(more) => Ok(seq![opt] + more),
                    Err(e) => Err(e),
                }
            } else {
                Err(SyntaxErrorModel::UnknownOptionParam(token))
            }
        } else {
            Err(SyntaxErrorModel::UnknownError)
        }
    }
}

#[via_fn]
proof fn spec_parse_options_decreases(ts: Seq<TokenModel>) {
    if ts.len() >= 2 {
        lemma_rbrace_end_bounds(ts, 2);
    }
}

/// The tree parsed from a whole token sequence: directive, table name, an
/// opening brace, at least one option, and the closing brace at the very
/// end. Fewer than five tokens cannot form a program.
pub open spec fn spec_parse(ts: Seq<TokenModel>) -> Result<AstModel, SyntaxErrorModel> {
    if ts.len() < 5 {
        Err(SyntaxErrorModel::TooShort)
    } else if ts[0] is NameColon && ts[1] is Name && ts[2] is LMidParen && ts[ts.len() - 1]
        is RMidParen {
        match spec_parse_options(ts.subrange(3, ts.len() - 1)) {
            Ok(opts) => Ok(
                AstModel::Program {
                    start: Box::new(
                        AstModel::Method {
                            method: Box::new(AstModel::Str(ts[0]->NameColon_0)),
                            table_name: Box::new(AstModel::Str(ts[1]->Name_0)),
                            table_define: Box::new(AstModel::Group(opts)),
                        },
                    ),
                },
            ),
            Err(e) => Err(e),
        }
    } else {
        Err(SyntaxErrorModel::UnknownError)
    }
}

/// Executable parse outcome `r` agrees with the specification's `s`.
pub open spec fn parse_matches(
    r: Result<Ast, SyntaxError>,
    s: Result<AstModel, SyntaxErrorModel>,
) -> bool {
    match (r, s) {
        (Ok(a), Ok(m)) => a@ == m,
        (Err(e), Err(em)) => e@ == em,
        _ => false,
    }
}

/// Whether a token sequence parses into a valid tree.
pub open spec fn spec_sequence_valid(ts: Seq<TokenModel>) -> bool {
    match spec_parse(ts) {
        Ok(m) => spec_check_syntax(m),
        Err(_) => false,
    }
}

// ---------------------------------------------------------------------------
// the structural parser, executed
// ---------------------------------------------------------------------------

/// Parses one run of option entries, appending their nodes to `options`.
/// On an error, entries already recognized stay appended.
pub fn parse_options_recursive(tokens: &Vec<Token>, options: &mut Vec<Box<Ast>>) -> (r: Result<
    (),
    SyntaxError,
>)
    ensures
        ({
            match (r, spec_parse_options(models(tokens@))) {
                (Ok(u), Ok(opts)) => asts_view(final(options)@) == asts_view(old(options)@) + opts,
                (Err(e), Err(em)) => e@ == em,
                _ => false,
            }
        }),
    decreases tokens@.len(),
{
    let ghost ts = models(tokens@);
    proof {
        assert(ts.len() == tokens@.len());
    }
    if tokens.len() == 0 {
        proof {
            assert(asts_view(options@) + Seq::<AstModel>::empty() =~= asts_view(options@));
        }
        return Ok(());
    }
    let token = tokens[0].clone();
    if !(token.is_name() || token.is_name_colon()) {
        return Err(SyntaxError::UnknownError);
    }
    let braced = tokens.len() >= 2 && tokens[1].is_l_mid_paren();
    if braced {
        let mut rb: usize = 2;
        while rb < tokens.len() && !tokens[rb].is_r_mid_paren()
            invariant
                2 <= rb <= tokens@.len(),
                ts == models(tokens@),
                ts.len() == tokens@.len(),
                forall|j: int| 2 <= j < rb ==> !(#[trigger] ts[j] is RMidParen),
            decreases tokens@.len() - rb,
        {
            proof {
                assert(ts[rb as int] == tokens@[rb as int]@);
            }
            rb = rb + 1;
        }
        proof {
            lemma_rbrace_steps(ts, 2, rb as int);
            if (rb as int) < ts.len() {
                assert(ts[rb as int] is RMidParen);
            }
            assert(rb as int == rbrace_end(ts, 2));
        }
        if rb >= tokens.len() {
            return Err(SyntaxError::UnknownError);
        }
        let body = subvec_tokens(tokens, 2, rb);
        let rest = subvec_tokens(tokens, rb + 1, tokens.len());
        let ghost bodym = ts.subrange(2, rb as int);
        let ghost restm = ts.subrange(rb + 1, ts.len() as int);
        if body.len() == 0 {
            return Err(SyntaxError::NoOption(token));
        }
        let (head, groups) = split_with_head_and_separator(&body);
        if head.len() > 0 {
            proof {
                crate::slice_helper::lemma_nonsep_end_bounds(bodym, 0);
                assert(models(head@).len() == nonsep_end(bodym, 0));
                assert(nonsep_end(bodym, 0) != 0);
                assert(models(head@)[0] == bodym[0]);
            }
            return Err(SyntaxError::UnknownOptionParam(head[0].clone()));
        }
        proof {
            assert(nonsep_end(bodym, 0) == 0) by {
                crate::slice_helper::lemma_nonsep_end_bounds(bodym, 0);
                assert(models(head@).len() == 0);
            }
        }
        if groups.len() == 0 {
            proof {
                assert(pairs_view(groups@).len() == 0);
            }
            return Err(SyntaxError::NoOption(token));
        }
        let ghost tokm = token@;
        let is_col = token.is_name();
        let opt = if is_col {
            Ast::new_column_option(token, groups)
        } else {
            Ast::new_table_option(token, groups)
        };
        proof {
            assert(opt@ == option_model(tokm, bodym));
        }
        let ghost osnap = options@;
        options.push(Box::new(opt));
        proof {
            lemma_asts_view_push(osnap, Box::new(opt));
        }
        let r2 = parse_options_recursive(&rest, options);
        match r2 {
            Ok(_) => {
                proof {
                    let more = spec_parse_options(restm)->Ok_0;
                    assert(asts_view(options@) == asts_view(osnap).push(opt@) + more);
                    assert(asts_view(osnap).push(opt@) + more =~= asts_view(osnap) + (seq![
                        option_model(tokm, bodym),
                    ] + more));
                }
                Ok(())
            },
            Err(e) => Err(e),
        }
    } else if token.is_name_colon() {
        let ghost tokm = token@;
        let opt = Ast::new_table_option(token, Vec::new());
        proof {
            assert(pairs_view(Seq::<(Token, Vec<Token>)>::empty()) =~= Seq::<
                (TokenModel, Seq<TokenModel>),
            >::empty());
            assert(params_model(Seq::<(TokenModel, Seq<TokenModel>)>::empty()) =~= Seq::<
                AstModel,
            >::empty());
        }
        let ghost osnap = options@;
        options.push(Box::new(opt));
        proof {
            lemma_asts_view_push(osnap, Box::new(opt));
        }
        let rest = subvec_tokens(tokens, 1, tokens.len());
        proof {
            assert(models(rest@) =~= ts.drop_first());
        }
        let r2 = parse_options_recursive(&rest, options);
        match r2 {
            Ok(_) => {
                proof {
                    let more = spec_parse_options(ts.drop_first())->Ok_0;
                    assert(asts_view(options@) == asts_view(osnap).push(opt@) + more);
                    assert(asts_view(osnap).push(opt@) + more =~= asts_view(osnap) + (seq![opt@]
                        + more));
                }
                Ok(())
            },
            Err(e) => Err(e),
        }
    } else {
        Err(SyntaxError::UnknownOptionParam(token))
    }
}

/// Parses a run of option entries into their nodes. Any error aborts the
/// whole parse and is handed back.
pub fn parse_options(tokens: &Vec<Token>) -> (r: Result<Vec<Box<Ast>>, SyntaxError>)
    ensures
        ({
            match (r, spec_parse_options(models(tokens@))) {
                (Ok(v), Ok(opts)) => asts_view(v@) == opts,
                (Err(e), Err(em)) => e@ == em,
                _ => false,
            }
        }),
{
    let mut options: Vec<Box<Ast>> = Vec::new();
    match parse_options_recursive(tokens, &mut options) {
        Ok(_) => {
            proof {
                if spec_parse_options(models(tokens@)) is Ok {
                    assert(asts_view(Seq::<Box<Ast>>::empty()) + spec_parse_options(
                        models(tokens@),
                    )->Ok_0 =~= spec_parse_options(models(tokens@))->Ok_0);
                }
            }
            Ok(options)
        },
        Err(e) => Err(e),
    }
}

impl Sequence {
    /// Parses the token sequence into a tree: directive, table name, and a
    /// braced, nonempty option sequence.
    pub fn parse(&self) -> (r: Result<Ast, SyntaxError>)
        ensures
            parse_matches(r, spec_parse(self@)),
    {
        let tokens = self.get_tokens();
        proof {
            assert(models(tokens@) == self@);
        }
        if tokens.len() < 5 {
            return Err(SyntaxError::TooShort);
        }
        let l = tokens.len();
        let shape_ok = tokens[0].is_name_colon() && tokens[1].is_name()
            && tokens[2].is_l_mid_paren() && tokens[l - 1].is_r_mid_paren();
        if !shape_ok {
            return Err(SyntaxError::UnknownError);
        }
        let method = match &tokens[0] {
            Token::NameColon(s) => s.clone(),
            _ => unreached(),
        };
        let table = match &tokens[1] {
            Token::Name(s) => s.clone(),
            _ => unreached(),
        };
        let mids = subvec_tokens(&tokens, 3, l - 1);
        match parse_options(&mids) {
            Err(e) => Err(e),
            Ok(options) => Ok(Ast::new_ast(method, table, options)),
        }
    }

    /// Parses and validates: true exactly when the token sequence forms a
    /// program that passes every structural and semantic check.
    pub fn check_syntax(&self) -> (r: bool)
        ensures
            r == spec_sequence_valid(self@),
    {
        match self.parse() {
            Ok(ast) => ast.check_syntax(),
            Err(_) => false,
        }
    }
}

} // verus!
