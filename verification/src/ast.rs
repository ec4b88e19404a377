//! The abstract syntax tree of one migration statement, and its validator.
//!
//! The tree is deliberately dynamically shaped (every node is an `Ast`);
//! the validator re-checks the whole shape, so a tree built by any path —
//! not only by the parser — is still checked before code generation.

use vstd::prelude::*;

use crate::token::{models, Decimal, Token, TokenModel};

verus! {

/// One node of the syntax tree.
#[derive(Debug, PartialEq)]
pub enum Ast {
    /// root: one whole migration program
    Program { start: Box<Ast> },
    /// a method applied to a table, with the table's body
    Method { method: Box<Ast>, table_name: Box<Ast>, table_define: Box<Ast> },
    /// an ordered group of nodes (options, or a parameter's values)
    Group(Vec<Box<Ast>>),
    /// a column definition: column name and its parameters
    ColumnOption { option_name: Box<Ast>, option_params: Box<Ast> },
    /// a table-level option: option name and its parameters
    TableOption { option_name: Box<Ast>, option_params: Box<Ast> },
    /// one named parameter and its values
    Param { param_name: Box<Ast>, param_options: Box<Ast> },
    /// a date literal (year, month, day)
    Ymd(Box<Ast>, Box<Ast>, Box<Ast>),
    /// a time literal (hour, minute, second)
    Time(Box<Ast>, Box<Ast>, Box<Ast>),
    /// a datetime literal (year, month, day, hour, minute, second)
    DateTime(Box<Ast>, Box<Ast>, Box<Ast>, Box<Ast>, Box<Ast>, Box<Ast>),
    UnsignedInteger(u16),
    Integer(i16),
    Double(Decimal),
    /// a quoted string, or a method/option name
    Str(String),
    /// a bare name referring to a column
    ColumnString(String),
    /// the absent node
    Empty,
}

/// Mathematical model of a tree node: strings are character sequences and
/// groups are sequences.
pub ghost enum AstModel {
    Program { start: Box<AstModel> },
    Method { method: Box<AstModel>, table_name: Box<AstModel>, table_define: Box<AstModel> },
    Group(Seq<AstModel>),
    ColumnOption { option_name: Box<AstModel>, option_params: Box<AstModel> },
    TableOption { option_name: Box<AstModel>, option_params: Box<AstModel> },
    Param { param_name: Box<AstModel>, param_options: Box<AstModel> },
    Ymd(Box<AstModel>, Box<AstModel>, Box<AstModel>),
    Time(Box<AstModel>, Box<AstModel>, Box<AstModel>),
    DateTime(
        Box<AstModel>,
        Box<AstModel>,
        Box<AstModel>,
        Box<AstModel>,
        Box<AstModel>,
        Box<AstModel>,
    ),
    UnsignedInteger(u16),
    Integer(i16),
    Double(Decimal),
    Str(Seq<char>),
    ColumnString(Seq<char>),
    Empty,
}

/// Models of a group's members, in order.
pub open spec fn asts_view(v: Seq<Box<Ast>>) -> Seq<AstModel>
    decreases v,
{
    if v.len() == 0 {
        Seq::empty()
    } else {
        seq![ast_view(*v[0])] + asts_view(v.drop_first())
    }
}

/// Model of one tree node.
pub open spec fn ast_view(a: Ast) -> AstModel
    decreases a,
{
    match a {
        Ast::Program { start } => AstModel::Program { start: Box::new(ast_view(*start)) },
        Ast::Method { method, table_name, table_define } => AstModel::Method {
            method: Box::new(ast_view(*method)),
            table_name: Box::new(ast_view(*table_name)),
            table_define: Box::new(ast_view(*table_define)),
        },
        Ast::Group(v) => AstModel::Group(asts_view(v@)),
        Ast::ColumnOption { option_name, option_params } => AstModel::ColumnOption {
            option_name: Box::new(ast_view(*option_name)),
            option_params: Box::new(ast_view(*option_params)),
        },
        Ast::TableOption { option_name, option_params } => AstModel::TableOption {
            option_name: Box::new(ast_view(*option_name)),
            option_params: Box::new(ast_view(*option_params)),
        },
        Ast::Param { param_name, param_options } => AstModel::Param {
            param_name: Box::new(ast_view(*param_name)),
            param_options: Box::new(ast_view(*param_options)),
        },
        Ast::Ymd(y, m, d) => AstModel::Ymd(
            Box::new(ast_view(*y)),
            Box::new(ast_view(*m)),
            Box::new(ast_view(*d)),
        ),
        Ast::Time(h, m, s) => AstModel::Time(
            Box::new(ast_view(*h)),
            Box::new(ast_view(*m)),
            Box::new(ast_view(*s)),
        ),
        Ast::DateTime(y, mo, d, h, mi, s) => AstModel::DateTime(
            Box::new(ast_view(*y)),
            Box::new(ast_view(*mo)),
            Box::new(ast_view(*d)),
            Box::new(ast_view(*h)),
            Box::new(ast_view(*mi)),
            Box::new(ast_view(*s)),
        ),
        Ast::UnsignedInteger(u) => AstModel::UnsignedInteger(u),
        Ast::Integer(i) => AstModel::Integer(i),
        Ast::Double(d) => AstModel::Double(d),
        Ast::Str(s) => AstModel::Str(s@),
        Ast::ColumnString(s) => AstModel::ColumnString(s@),
        Ast::Empty => AstModel::Empty,
    }
}

impl View for Ast {
    type V = AstModel;

    open spec fn view(&self) -> AstModel {
        ast_view(*self)
    }
}

/// A group's model has one member per tree member, in the same order.
pub proof fn lemma_asts_view_index(v: Seq<Box<Ast>>)
    ensures
        asts_view(v).len() == v.len(),
        forall|i: int| 0 <= i < v.len() ==> #[trigger] asts_view(v)[i] == ast_view(*v[i]),
    decreases v,
{
    if v.len() > 0 {
        lemma_asts_view_index(v.drop_first());
        assert forall|i: int| 0 <= i < v.len() implies #[trigger] asts_view(v)[i] == ast_view(
            *v[i],
        ) by {
            if i > 0 {
                assert(v.drop_first()[i - 1] == v[i]);
            }
        }
    }
}

/// Appending to a group appends its model.
pub proof fn lemma_asts_view_push(v: Seq<Box<Ast>>, b: Box<Ast>)
    ensures
        asts_view(v.push(b)) == asts_view(v).push(ast_view(*b)),
{
    lemma_asts_view_index(v);
    lemma_asts_view_index(v.push(b));
    assert(asts_view(v.push(b)) =~= asts_view(v).push(ast_view(*b)));
}

// ---------------------------------------------------------------------------
// validation: what a well-formed tree is
// ---------------------------------------------------------------------------

pub open spec fn spec_check_unsigned_integer(a: AstModel) -> bool {
    a is UnsignedInteger
}

pub open spec fn spec_check_integer(a: AstModel) -> bool {
    a is Integer
}

pub open spec fn spec_check_double(a: AstModel) -> bool {
    a is Double
}

pub open spec fn spec_check_string(a: AstModel) -> bool {
    a is Str
}

pub open spec fn spec_check_column_string(a: AstModel) -> bool {
    a is ColumnString
}

pub open spec fn spec_check_ymd(a: AstModel) -> bool {
    match a {
        AstModel::Ymd(y, m, d) => spec_check_unsigned_integer(*y) && spec_check_unsigned_integer(
            *m,
        ) && spec_check_unsigned_integer(*d),
        _ => false,
    }
}

pub open spec fn spec_check_time(a: AstModel) -> bool {
    match a {
        AstModel::Time(h, m, s) => spec_check_unsigned_integer(*h) && spec_check_unsigned_integer(
            *m,
        ) && spec_check_unsigned_integer(*s),
        _ => false,
    }
}

pub open spec fn spec_check_date_time(a: AstModel) -> bool {
    match a {
        AstModel::DateTime(y, mo, d, h, mi, s) => spec_check_unsigned_integer(*y)
            && spec_check_unsigned_integer(*mo) && spec_check_unsigned_integer(*d)
            && spec_check_unsigned_integer(*h) && spec_check_unsigned_integer(*mi)
            && spec_check_unsigned_integer(*s),
        _ => false,
    }
}

/// A literal legal as a column-option parameter value.
pub open spec fn spec_check_column_option_param_option(a: AstModel) -> bool {
    ||| spec_check_date_time(a)
    ||| spec_check_double(a)
    ||| spec_check_integer(a)
    ||| spec_check_string(a)
    ||| spec_check_time(a)
    ||| spec_check_ymd(a)
}

/// A value legal as a table-option parameter value: the column-option
/// literals plus bare column references.
pub open spec fn spec_check_table_option_param_option(a: AstModel) -> bool {
    spec_check_column_option_param_option(a) || spec_check_column_string(a)
}

pub open spec fn spec_check_column_option_param_options(a: AstModel) -> bool {
    match a {
        AstModel::Group(options) => forall|i: int|
            0 <= i < options.len() ==> #[trigger] spec_check_column_option_param_option(
                options[i],
            ),
        _ => false,
    }
}

pub open spec fn spec_check_table_option_param_options(a: AstModel) -> bool {
    match a {
        AstModel::Group(options) => forall|i: int|
            0 <= i < options.len() ==> #[trigger] spec_check_table_option_param_option(options[i]),
        _ => false,
    }
}

pub open spec fn spec_check_column_param(a: AstModel) -> bool {
    match a {
        AstModel::Param { param_name, param_options } => spec_check_string(*param_name)
            && spec_check_column_option_param_options(*param_options),
        _ => false,
    }
}

pub open spec fn spec_check_table_param(a: AstModel) -> bool {
    match a {
        AstModel::Param { param_name, param_options } => spec_check_string(*param_name)
            && spec_check_table_option_param_options(*param_options),
        _ => false,
    }
}

/// A column option's parameter group must be nonempty.
pub open spec fn spec_check_column_params(a: AstModel) -> bool {
    match a {
        AstModel::Group(params) => params.len() > 0 && forall|i: int|
            0 <= i < params.len() ==> #[trigger] spec_check_column_param(params[i]),
        _ => false,
    }
}

/// A table option's parameter group may be empty.
pub open spec fn spec_check_table_params(a: AstModel) -> bool {
    match a {
        AstModel::Group(params) => forall|i: int|
            0 <= i < params.len() ==> #[trigger] spec_check_table_param(params[i]),
        _ => false,
    }
}

pub open spec fn spec_check_column_option(a: AstModel) -> bool {
    match a {
        AstModel::ColumnOption { option_name, option_params } => spec_check_column_string(
            *option_name,
        ) && spec_check_column_params(*option_params),
        _ => false,
    }
}

pub open spec fn spec_check_table_option(a: AstModel) -> bool {
    match a {
        AstModel::TableOption { option_name, option_params } => spec_check_string(*option_name)
            && spec_check_table_params(*option_params),
        _ => false,
    }
}

pub open spec fn spec_check_options(a: AstModel) -> bool {
    match a {
        AstModel::Group(options) => forall|i: int|
            0 <= i < options.len() ==> #[trigger] spec_check_column_option(options[i])
                || spec_check_table_option(options[i]),
        _ => false,
    }
}

pub open spec fn spec_check_method(a: AstModel) -> bool {
    match a {
        AstModel::Method { method, table_name, table_define } => spec_check_string(*method)
            && spec_check_string(*table_name) && spec_check_options(*table_define),
        _ => false,
    }
}

/// A valid tree: a program whose method, table name, options, parameters
/// and literal leaves all have the right shapes.
pub open spec fn spec_check_syntax(a: AstModel) -> bool {
    match a {
        AstModel::Program { start } => spec_check_method(*start),
        _ => false,
    }
}

impl Ast {
    fn check_unsigned_integer(&self) -> (r: bool)
        ensures
            r == spec_check_unsigned_integer(self@),
    {
        match self {
            Ast::UnsignedInteger(_) => true,
            _ => false,
        }
    }

    fn check_integer(&self) -> (r: bool)
        ensures
            r == spec_check_integer(self@),
    {
        match self {
            Ast::Integer(_) => true,
            _ => false,
        }
    }

    fn check_double(&self) -> (r: bool)
        ensures
            r == spec_check_double(self@),
    {
        match self {
            Ast::Double(_) => true,
            _ => false,
        }
    }

    fn check_string(&self) -> (r: bool)
        ensures
            r == spec_check_string(self@),
    {
        match self {
            Ast::Str(_) => true,
            _ => false,
        }
    }

    fn check_column_string(&self) -> (r: bool)
        ensures
            r == spec_check_column_string(self@),
    {
        match self {
            Ast::ColumnString(_) => true,
            _ => false,
        }
    }

    fn check_ymd(&self) -> (r: bool)
        ensures
            r == spec_check_ymd(self@),
    {
        match self {
            Ast::Ymd(y, m, d) => y.check_unsigned_integer() && m.check_unsigned_integer()
                && d.check_unsigned_integer(),
            _ => false,
        }
    }

    fn check_time(&self) -> (r: bool)
        ensures
            r == spec_check_time(self@),
    {
        match self {
            Ast::Time(h, m, s) => h.check_unsigned_integer() && m.check_unsigned_integer()
                && s.check_unsigned_integer(),
            _ => false,
        }
    }

    fn check_date_time(&self) -> (r: bool)
        ensures
            r == spec_check_date_time(self@),
    {
        match self {
            Ast::DateTime(y, mo, d, h, mi, s) => y.check_unsigned_integer()
                && mo.check_unsigned_integer() && d.check_unsigned_integer()
                && h.check_unsigned_integer() && mi.check_unsigned_integer()
                && s.check_unsigned_integer(),
            _ => false,
        }
    }

    fn check_column_option_param_option(&self) -> (r: bool)
        ensures
            r == spec_check_column_option_param_option(self@),
    {
        self.check_date_time() || self.check_double() || self.check_integer()
            || self.check_string() || self.check_time() || self.check_ymd()
    }

    fn check_table_option_param_option(&self) -> (r: bool)
        ensures
            r == spec_check_table_option_param_option(self@),
    {
        self.check_column_option_param_option() || self.check_column_string()
    }

    fn check_column_option_param_options(&self) -> (r: bool)
        ensures
            r == spec_check_column_option_param_options(self@),
    {
        match self {
            Ast::Group(options) => {
                proof {
                    lemma_asts_view_index(options@);
                }
                let mut i: usize = 0;
                while i < options.len()
                    invariant
                        i <= options@.len(),
                        self@ == AstModel::Group(asts_view(options@)),
                        asts_view(options@).len() == options@.len(),
                        forall|j: int|
                            0 <= j < options@.len() ==> #[trigger] asts_view(options@)[j]
                                == ast_view(*options@[j]),
                        forall|j: int|
                            0 <= j < i ==> spec_check_column_option_param_option(
                                #[trigger] asts_view(options@)[j],
                            ),
                    decreases options@.len() - i,
                {
                    if !options[i].check_column_option_param_option() {
                        proof {
                            assert(self@->Group_0 == asts_view(options@));
                            if spec_check_column_option_param_options(self@) {
                                assert(spec_check_column_option_param_option(
                                    asts_view(options@)[i as int],
                                ));
                            }
                        }
                        return false;
                    }
                    i = i + 1;
                }
                true
            },
            _ => false,
        }
    }

    fn check_table_option_param_options(&self) -> (r: bool)
        ensures
            r == spec_check_table_option_param_options(self@),
    {
        match self {
            Ast::Group(options) => {
                proof {
                    lemma_asts_view_index(options@);
                }
                let mut i: usize = 0;
                while i < options.len()
                    invariant
                        i <= options@.len(),
                        self@ == AstModel::Group(asts_view(options@)),
                        asts_view(options@).len() == options@.len(),
                        forall|j: int|
                            0 <= j < options@.len() ==> #[trigger] asts_view(options@)[j]
                                == ast_view(*options@[j]),
                        forall|j: int|
                            0 <= j < i ==> spec_check_table_option_param_option(
                                #[trigger] asts_view(options@)[j],
                            ),
                    decreases options@.len() - i,
                {
                    if !options[i].check_table_option_param_option() {
                        proof {
                            assert(self@->Group_0 == asts_view(options@));
                            if spec_check_table_option_param_options(self@) {
                                assert(spec_check_table_option_param_option(
                                    asts_view(options@)[i as int],
                                ));
                            }
                        }
                        return false;
                    }
                    i = i + 1;
                }
                true
            },
            _ => false,
        }
    }

    fn check_column_param(&self) -> (r: bool)
        ensures
            r == spec_check_column_param(self@),
    {
        match self {
            Ast::Param { param_name, param_options } => param_name.check_string()
                && param_options.check_column_option_param_options(),
            _ => false,
        }
    }

    fn check_table_param(&self) -> (r: bool)
        ensures
            r == spec_check_table_param(self@),
    {
        match self {
            Ast::Param { param_name, param_options } => param_name.check_string()
                && param_options.check_table_option_param_options(),
            _ => false,
        }
    }

    fn check_column_params(&self) -> (r: bool)
        ensures
            r == spec_check_column_params(self@),
    {
        match self {
            Ast::Group(params) => {
                if params.len() == 0 {
                    return false;
                }
                proof {
                    lemma_asts_view_index(params@);
                }
                let mut i: usize = 0;
                while i < params.len()
                    invariant
                        i <= params@.len(),
                        self@ == AstModel::Group(asts_view(params@)),
                        asts_view(params@).len() == params@.len(),
                        forall|j: int|
                            0 <= j < params@.len() ==> #[trigger] asts_view(params@)[j]
                                == ast_view(*params@[j]),
                        forall|j: int|
                            0 <= j < i ==> spec_check_column_param(
                                #[trigger] asts_view(params@)[j],
                            ),
                    decreases params@.len() - i,
                {
                    if !params[i].check_column_param() {
                        proof {
                            assert(self@->Group_0 == asts_view(params@));
                            if spec_check_column_params(self@) {
                                assert(spec_check_column_param(asts_view(params@)[i as int]));
                            }
                        }
                        return false;
                    }
                    i = i + 1;
                }
                true
            },
            _ => false,
        }
    }

    fn check_table_params(&self) -> (r: bool)
        ensures
            r == spec_check_table_params(self@),
    {
        match self {
            Ast::Group(params) => {
                proof {
                    lemma_asts_view_index(params@);
                }
                let mut i: usize = 0;
                while i < params.len()
                    invariant
                        i <= params@.len(),
                        self@ == AstModel::Group(asts_view(params@)),
                        asts_view(params@).len() == params@.len(),
                        forall|j: int|
                            0 <= j < params@.len() ==> #[trigger] asts_view(params@)[j]
                                == ast_view(*params@[j]),
                        forall|j: int|
                            0 <= j < i ==> spec_check_table_param(#[trigger] asts_view(params@)[j]),
                    decreases params@.len() - i,
                {
                    if !params[i].check_table_param() {
                        proof {
                            assert(self@->Group_0 == asts_view(params@));
                            if spec_check_table_params(self@) {
                                assert(spec_check_table_param(asts_view(params@)[i as int]));
                            }
                        }
                        return false;
                    }
                    i = i + 1;
                }
                true
            },
            _ => false,
        }
    }

    fn check_column_name(&self) -> (r: bool)
        ensures
            r == spec_check_column_string(self@),
    {
        self.check_column_string()
    }

    fn check_table_name(&self) -> (r: bool)
        ensures
            r == spec_check_string(self@),
    {
        self.check_string()
    }

    fn check_column_option(&self) -> (r: bool)
        ensures
            r == spec_check_column_option(self@),
    {
        match self {
            Ast::ColumnOption { option_name, option_params } => option_name.check_column_name()
                && option_params.check_column_params(),
            _ => false,
        }
    }

    fn check_table_option(&self) -> (r: bool)
        ensures
            r == spec_check_table_option(self@),
    {
        match self {
            Ast::TableOption { option_name, option_params } => option_name.check_table_name()
                && option_params.check_table_params(),
            _ => false,
        }
    }

    fn check_options(&self) -> (r: bool)
        ensures
            r == spec_check_options(self@),
    {
        match self {
            Ast::Group(options) => {
                proof {
                    lemma_asts_view_index(options@);
                }
                let mut i: usize = 0;
                while i < options.len()
                    invariant
                        i <= options@.len(),
                        self@ == AstModel::Group(asts_view(options@)),
                        asts_view(options@).len() == options@.len(),
                        forall|j: int|
                            0 <= j < options@.len() ==> #[trigger] asts_view(options@)[j]
                                == ast_view(*options@[j]),
                        forall|j: int|
                            0 <= j < i ==> #[trigger] spec_check_column_option(
                                asts_view(options@)[j],
                            ) || spec_check_table_option(asts_view(options@)[j]),
                    decreases options@.len() - i,
                {
                    if !(options[i].check_column_option() || options[i].check_table_option()) {
                        proof {
                            assert(self@->Group_0 == asts_view(options@));
                            if spec_check_options(self@) {
                                assert(spec_check_column_option(asts_view(options@)[i as int])
                                    || spec_check_table_option(asts_view(options@)[i as int]));
                            }
                        }
                        return false;
                    }
                    i = i + 1;
                }
                true
            },
            _ => false,
        }
    }

    fn check_method(&self) -> (r: bool)
        ensures
            r == spec_check_method(self@),
    {
        match self {
            Ast::Method { method, table_name, table_define } => method.check_string()
                && table_name.check_string() && table_define.check_options(),
            _ => false,
        }
    }

    /// Validates the whole tree. The result is a function of the tree's
    /// value alone, so validating the same tree twice gives the same
    /// answer: validation has no hidden state and mutates nothing.
    pub fn check_syntax(&self) -> (r: bool)
        ensures
            r == spec_check_syntax(self@),
    {
        match self {
            Ast::Program { start } => start.check_method(),
            _ => false,
        }
    }
}

// ---------------------------------------------------------------------------
// building trees from tokens
// ---------------------------------------------------------------------------

/// Conversion of a value into its tree node.
pub trait ToAst {
    /// The node this value converts to.
    spec fn ast_model(&self) -> AstModel;

    /// Converts the value.
    fn to_ast(&self) -> (r: Ast)
        ensures
            r@ == self.ast_model(),
    ;
}

impl ToAst for u16 {
    open spec fn ast_model(&self) -> AstModel {
        AstModel::UnsignedInteger(*self)
    }

    fn to_ast(&self) -> (r: Ast) {
        Ast::UnsignedInteger(*self)
    }
}

impl ToAst for u8 {
    open spec fn ast_model(&self) -> AstModel {
        AstModel::UnsignedInteger(*self as u16)
    }

    fn to_ast(&self) -> (r: Ast) {
        Ast::UnsignedInteger(*self as u16)
    }
}

impl ToAst for i16 {
    open spec fn ast_model(&self) -> AstModel {
        AstModel::Integer(*self)
    }

    fn to_ast(&self) -> (r: Ast) {
        Ast::Integer(*self)
    }
}

impl ToAst for Decimal {
    open spec fn ast_model(&self) -> AstModel {
        AstModel::Double(*self)
    }

    fn to_ast(&self) -> (r: Ast) {
        Ast::Double(*self)
    }
}

impl ToAst for String {
    open spec fn ast_model(&self) -> AstModel {
        AstModel::Str(self@)
    }

    fn to_ast(&self) -> (r: Ast) {
        Ast::Str(self.clone())
    }
}

/// The node a token turns into: braces vanish, bare names become column
/// references, directive names and quoted strings become strings, and
/// literals keep their components.
pub open spec fn token_ast_model(t: TokenModel) -> AstModel {
    match t {
        TokenModel::LMidParen => AstModel::Empty,
        TokenModel::RMidParen => AstModel::Empty,
        TokenModel::Name(s) => AstModel::ColumnString(s),
        TokenModel::NameColon(s) => AstModel::Str(s),
        TokenModel::Ymd(y, m, d) => AstModel::Ymd(
            Box::new(AstModel::UnsignedInteger(y)),
            Box::new(AstModel::UnsignedInteger(m as u16)),
            Box::new(AstModel::UnsignedInteger(d as u16)),
        ),
        TokenModel::Time(h, m, s) => AstModel::Time(
            Box::new(AstModel::UnsignedInteger(h as u16)),
            Box::new(AstModel::UnsignedInteger(m as u16)),
            Box::new(AstModel::UnsignedInteger(s as u16)),
        ),
        TokenModel::DateTime(y, mo, d, h, mi, s) => AstModel::DateTime(
            Box::new(AstModel::UnsignedInteger(y)),
            Box::new(AstModel::UnsignedInteger(mo as u16)),
            Box::new(AstModel::UnsignedInteger(d as u16)),
            Box::new(AstModel::UnsignedInteger(h as u16)),
            Box::new(AstModel::UnsignedInteger(mi as u16)),
            Box::new(AstModel::UnsignedInteger(s as u16)),
        ),
        TokenModel::Integer(i) => AstModel::Integer(i),
        TokenModel::Double(d) => AstModel::Double(d),
        TokenModel::Str(s) => AstModel::Str(s),
    }
}

impl ToAst for Token {
    open spec fn ast_model(&self) -> AstModel {
        token_ast_model(self@)
    }

    fn to_ast(&self) -> (r: Ast) {
        match self {
            Token::LMidParen => Ast::Empty,
            Token::RMidParen => Ast::Empty,
            Token::Name(s) => Ast::ColumnString(s.clone()),
            Token::NameColon(s) => Ast::Str(s.clone()),
            Token::Ymd(y, m, d) => Ast::Ymd(
                Box::new(y.to_ast()),
                Box::new(m.to_ast()),
                Box::new(d.to_ast()),
            ),
            Token::Time(h, m, s) => Ast::Time(
                Box::new(h.to_ast()),
                Box::new(m.to_ast()),
                Box::new(s.to_ast()),
            ),
            Token::DateTime(y, mo, d, h, mi, s) => Ast::DateTime(
                Box::new(y.to_ast()),
                Box::new(mo.to_ast()),
                Box::new(d.to_ast()),
                Box::new(h.to_ast()),
                Box::new(mi.to_ast()),
                Box::new(s.to_ast()),
            ),
            Token::Integer(i) => Ast::Integer(*i),
            Token::Double(d) => Ast::Double(*d),
            Token::Str(s) => Ast::Str(s.clone()),
        }
    }
}

/// The nodes of a parameter's values.
pub open spec fn vals_model(ts: Seq<TokenModel>) -> Seq<AstModel> {
    ts.map_values(|t: TokenModel| token_ast_model(t))
}

/// The node of one parameter: its name and the group of its values.
pub open spec fn param_model(name: TokenModel, vals: Seq<TokenModel>) -> AstModel {
    AstModel::Param {
        param_name: Box::new(token_ast_model(name)),
        param_options: Box::new(AstModel::Group(vals_model(vals))),
    }
}

/// Model of a vector of (parameter name, values) pairs.
pub open spec fn pairs_view(v: Seq<(Token, Vec<Token>)>) -> Seq<(TokenModel, Seq<TokenModel>)> {
    v.map_values(|p: (Token, Vec<Token>)| (p.0@, models(p.1@)))
}

/// The parameter nodes of a pair sequence, in order.
pub open spec fn params_model(ps: Seq<(TokenModel, Seq<TokenModel>)>) -> Seq<AstModel> {
    ps.map_values(|p: (TokenModel, Seq<TokenModel>)| param_model(p.0, p.1))
}

/// Turns (parameter name, values) pairs into parameter nodes.
pub fn to_vec_of_ast(v: Vec<(Token, Vec<Token>)>) -> (r: Vec<Box<Ast>>)
    ensures
        asts_view(r@) == params_model(pairs_view(v@)),
{
    let mut r: Vec<Box<Ast>> = Vec::new();
    let mut i: usize = 0;
    proof {
        assert(asts_view(r@) =~= params_model(pairs_view(v@)).take(0));
    }
    while i < v.len()
        invariant
            i <= v@.len(),
            params_model(pairs_view(v@)).len() == v@.len(),
            asts_view(r@) == params_model(pairs_view(v@)).take(i as int),
        decreases v@.len() - i,
    {
        let pair = &v[i];
        let mut os: Vec<Box<Ast>> = Vec::new();
        let mut j: usize = 0;
        proof {
            assert(asts_view(os@) =~= vals_model(models(pair.1@)).take(0));
        }
        while j < pair.1.len()
            invariant
                j <= pair.1@.len(),
                vals_model(models(pair.1@)).len() == pair.1@.len(),
                asts_view(os@) == vals_model(models(pair.1@)).take(j as int),
            decreases pair.1@.len() - j,
        {
            let b = Box::new(pair.1[j].to_ast());
            proof {
                lemma_asts_view_push(os@, b);
                assert(vals_model(models(pair.1@))[j as int] == token_ast_model(pair.1@[j as int]@));
                assert(vals_model(models(pair.1@)).take(j + 1) =~= vals_model(
                    models(pair.1@),
                ).take(j as int).push(vals_model(models(pair.1@))[j as int]));
            }
            os.push(b);
            j = j + 1;
        }
        proof {
            assert(vals_model(models(pair.1@)).take(pair.1@.len() as int) =~= vals_model(
                models(pair.1@),
            ));
        }
        let ghost osv = asts_view(os@);
        let name_node = pair.0.to_ast();
        let g = Ast::Group(os);
        proof {
            assert(g@ == AstModel::Group(osv));
        }
        let p = Box::new(Ast::Param { param_name: Box::new(name_node), param_options: Box::new(g) });
        proof {
            assert(ast_view(*p) == (AstModel::Param {
                param_name: Box::new(token_ast_model(pair.0@)),
                param_options: Box::new(AstModel::Group(osv)),
            }));
            lemma_asts_view_push(r@, p);
            assert(params_model(pairs_view(v@))[i as int] == param_model(
                pairs_view(v@)[i as int].0,
                pairs_view(v@)[i as int].1,
            ));
            assert(pairs_view(v@)[i as int] == (v@[i as int].0@, models(v@[i as int].1@)));
            assert(ast_view(*p) == params_model(pairs_view(v@))[i as int]);
            assert(params_model(pairs_view(v@)).take(i + 1) =~= params_model(
                pairs_view(v@),
            ).take(i as int).push(params_model(pairs_view(v@))[i as int]));
        }
        r.push(p);
        i = i + 1;
    }
    proof {
        assert(params_model(pairs_view(v@)).take(v@.len() as int) =~= params_model(pairs_view(v@)));
    }
    r
}

impl Ast {
    /// Builds the root of a tree: a program applying `method` to the table
    /// `table_name` with the given option nodes.
    pub fn new_ast(method: String, table_name: String, table_body: Vec<Box<Ast>>) -> (r: Self)
        ensures
            r@ == (AstModel::Program {
                start: Box::new(
                    AstModel::Method {
                        method: Box::new(AstModel::Str(method@)),
                        table_name: Box::new(AstModel::Str(table_name@)),
                        table_define: Box::new(AstModel::Group(asts_view(table_body@))),
                    },
                ),
            }),
    {
        let ghost mv = method@;
        let ghost tv = table_name@;
        let ghost bodyv = asts_view(table_body@);
        let m_node = Ast::Str(method);
        let t_node = Ast::Str(table_name);
        let g_node = Ast::Group(table_body);
        proof {
            assert(g_node@ == AstModel::Group(bodyv));
        }
        let mb = Box::new(m_node);
        let tb = Box::new(t_node);
        let gb = Box::new(g_node);
        proof {
            assert(ast_view(*mb) == AstModel::Str(mv));
            assert(ast_view(*tb) == AstModel::Str(tv));
            assert(ast_view(*gb) == AstModel::Group(bodyv));
        }
        let meth = Ast::Method { method: mb, table_name: tb, table_define: gb };
        proof {
            assert(meth@ is Method);
            assert(meth@ == (AstModel::Method {
                method: Box::new(AstModel::Str(mv)),
                table_name: Box::new(AstModel::Str(tv)),
                table_define: Box::new(AstModel::Group(bodyv)),
            }));
        }
        Ast::Program { start: Box::new(meth) }
    }

    /// Builds a column-option node from the column's name token and its
    /// (parameter name, values) pairs.
    pub fn new_column_option(column_name: Token, body: Vec<(Token, Vec<Token>)>) -> (r: Self)
        ensures
            r@ == (AstModel::ColumnOption {
                option_name: Box::new(token_ast_model(column_name@)),
                option_params: Box::new(AstModel::Group(params_model(pairs_view(body@)))),
            }),
    {
        let body_ast = to_vec_of_ast(body);
        let ghost bodyv = asts_view(body_ast@);
        let name_node = column_name.to_ast();
        let g_node = Ast::Group(body_ast);
        proof {
            assert(g_node@ == AstModel::Group(bodyv));
        }
        Ast::ColumnOption {
            option_name: Box::new(name_node),
            option_params: Box::new(g_node),
        }
    }

    /// Builds a table-option node from the option's name token and its
    /// (parameter name, values) pairs.
    pub fn new_table_option(column_name: Token, body: Vec<(Token, Vec<Token>)>) -> (r: Self)
        ensures
            r@ == (AstModel::TableOption {
                option_name: Box::new(token_ast_model(column_name@)),
                option_params: Box::new(AstModel::Group(params_model(pairs_view(body@)))),
            }),
    {
        let body_ast = to_vec_of_ast(body);
        let ghost bodyv = asts_view(body_ast@);
        let name_node = column_name.to_ast();
        let g_node = Ast::Group(body_ast);
        proof {
            assert(g_node@ == AstModel::Group(bodyv));
        }
        Ast::TableOption {
            option_name: Box::new(name_node),
            option_params: Box::new(g_node),
        }
    }
}

} // verus!
