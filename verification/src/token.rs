//! Tokens of the mig language and the immutable sequence the lexer produces.

use vstd::prelude::*;

verus! {

/// Exact decimal literal: `integral.fraction` with `fraction` written in
/// `places` digits, negated when `negative` is set. `0.01` is
/// `{ negative: false, integral: 0, fraction: 1, places: 2 }`.
#[derive(Debug, Clone, Copy, PartialEq, Eq, Structural)]
pub struct Decimal {
    pub negative: bool,
    pub integral: usize,
    pub fraction: usize,
    pub places: usize,
}

/// One lexical token of the mig language.
#[derive(Debug, PartialEq)]
pub enum Token {
    LMidParen,
    RMidParen,
    /// bare word: a table or column name
    Name(String),
    /// colon-prefixed word: a method or option name
    NameColon(String),
    Ymd(u16, u8, u8),
    Time(u8, u8, u8),
    DateTime(u16, u8, u8, u8, u8, u8),
    Integer(i16),
    Double(Decimal),
    /// quoted string literal
    Str(String),
}

/// Mathematical model of a token: strings are sequences of characters.
pub ghost enum TokenModel {
    LMidParen,
    RMidParen,
    Name(Seq<char>),
    NameColon(Seq<char>),
    Ymd(u16, u8, u8),
    Time(u8, u8, u8),
    DateTime(u16, u8, u8, u8, u8, u8),
    Integer(i16),
    Double(Decimal),
    Str(Seq<char>),
}

impl Clone for Token {
    fn clone(&self) -> (r: Self)
        ensures
            r@ == self@,
    {
        match self {
            Token::LMidParen => Token::LMidParen,
            Token::RMidParen => Token::RMidParen,
            Token::Name(s) => Token::Name(s.clone()),
            Token::NameColon(s) => Token::NameColon(s.clone()),
            Token::Ymd(y, m, d) => Token::Ymd(*y, *m, *d),
            Token::Time(h, m, s) => Token::Time(*h, *m, *s),
            Token::DateTime(y, mo, d, h, mi, s) => Token::DateTime(*y, *mo, *d, *h, *mi, *s),
            Token::Integer(i) => Token::Integer(*i),
            Token::Double(d) => Token::Double(*d),
            Token::Str(s) => Token::Str(s.clone()),
        }
    }
}

impl View for Token {
    type V = TokenModel;

    open spec fn view(&self) -> TokenModel {
        match self {
            Token::LMidParen => TokenModel::LMidParen,
            Token::RMidParen => TokenModel::RMidParen,
            Token::Name(s) => TokenModel::Name(s@),
            Token::NameColon(s) => TokenModel::NameColon(s@),
            Token::Ymd(y, m, d) => TokenModel::Ymd(*y, *m, *d),
            Token::Time(h, m, s) => TokenModel::Time(*h, *m, *s),
            Token::DateTime(y, mo, d, h, mi, s) => TokenModel::DateTime(*y, *mo, *d, *h, *mi, *s),
            Token::Integer(i) => TokenModel::Integer(*i),
            Token::Double(d) => TokenModel::Double(*d),
            Token::Str(s) => TokenModel::Str(s@),
        }
    }
}

impl Token {
    pub fn is_l_mid_paren(&self) -> (r: bool)
        ensures
            r == self@ is LMidParen,
    {
        match self {
            Token::LMidParen => true,
            _ => false,
        }
    }

    pub fn is_r_mid_paren(&self) -> (r: bool)
        ensures
            r == self@ is RMidParen,
    {
        match self {
            Token::RMidParen => true,
            _ => false,
        }
    }

    pub fn is_name(&self) -> (r: bool)
        ensures
            r == self@ is Name,
    {
        match self {
            Token::Name(_) => true,
            _ => false,
        }
    }

    pub fn is_name_colon(&self) -> (r: bool)
        ensures
            r == self@ is NameColon,
    {
        match self {
            Token::NameColon(_) => true,
            _ => false,
        }
    }

    pub fn is_ymd(&self) -> (r: bool)
        ensures
            r == self@ is Ymd,
    {
        match self {
            Token::Ymd(_, _, _) => true,
            _ => false,
        }
    }

    pub fn is_time(&self) -> (r: bool)
        ensures
            r == self@ is Time,
    {
        match self {
            Token::Time(_, _, _) => true,
            _ => false,
        }
    }

    pub fn is_date_time(&self) -> (r: bool)
        ensures
            r == self@ is DateTime,
    {
        match self {
            Token::DateTime(_, _, _, _, _, _) => true,
            _ => false,
        }
    }

    pub fn is_integer(&self) -> (r: bool)
        ensures
            r == self@ is Integer,
    {
        match self {
            Token::Integer(_) => true,
            _ => false,
        }
    }

    pub fn is_double(&self) -> (r: bool)
        ensures
            r == self@ is Double,
    {
        match self {
            Token::Double(_) => true,
            _ => false,
        }
    }

    pub fn is_string(&self) -> (r: bool)
        ensures
            r == self@ is Str,
    {
        match self {
            Token::Str(_) => true,
            _ => false,
        }
    }
}

impl Token {
    pub fn is_name_with(&self, name: String) -> (r: bool)
        ensures
            r == (self@ matches TokenModel::Name(s) && s == name@),
    {
        match self {
            Token::Name(s) => *s == name,
            _ => false,
        }
    }

    pub fn is_name_colon_with(&self, name_colon: String) -> (r: bool)
        ensures
            r == (self@ matches TokenModel::NameColon(s) && s == name_colon@),
    {
        match self {
            Token::NameColon(s) => *s == name_colon,
            _ => false,
        }
    }

    pub fn is_ymd_with(&self, year: u16, month: u8, day: u8) -> (r: bool)
        ensures
            r == (self@ == TokenModel::Ymd(year, month, day)),
    {
        match self {
            Token::Ymd(y, m, d) => *y == year && *m == month && *d == day,
            _ => false,
        }
    }

    pub fn is_time_with(&self, hour: u8, minute: u8, second: u8) -> (r: bool)
        ensures
            r == (self@ == TokenModel::Time(hour, minute, second)),
    {
        match self {
            Token::Time(h, m, s) => *h == hour && *m == minute && *s == second,
            _ => false,
        }
    }

    pub fn is_date_time_with(
        &self,
        year: u16,
        month: u8,
        day: u8,
        hour: u8,
        minute: u8,
        second: u8,
    ) -> (r: bool)
        ensures
            r == (self@ == TokenModel::DateTime(year, month, day, hour, minute, second)),
    {
        match self {
            Token::DateTime(y, mon, d, h, min, s) => *y == year && *mon == month && *d == day
                && *h == hour && *min == minute && *s == second,
            _ => false,
        }
    }

    pub fn is_integer_with(&self, value: i16) -> (r: bool)
        ensures
            r == (self@ == TokenModel::Integer(value)),
    {
        match self {
            Token::Integer(i) => *i == value,
            _ => false,
        }
    }

    /// The sought value is the exact decimal literal, not a float.
    pub fn is_double_with(&self, dbl: Decimal) -> (r: bool)
        ensures
            r == (self@ == TokenModel::Double(dbl)),
    {
        match self {
            Token::Double(d) => *d == dbl,
            _ => false,
        }
    }

    pub fn is_string_with(&self, string: String) -> (r: bool)
        ensures
            r == (self@ matches TokenModel::Str(s) && s == string@),
    {
        match self {
            Token::Str(s) => *s == string,
            _ => false,
        }
    }
}

/// A token kind legal as a parameter value inside a column option.
pub open spec fn is_column_option_model(t: TokenModel) -> bool {
    ||| t is DateTime
    ||| t is Double
    ||| t is Integer
    ||| t is Str
    ||| t is Time
    ||| t is Ymd
}

/// A token kind legal as a parameter value inside a table option:
/// the column-option kinds plus bare names (column references).
pub open spec fn is_table_option_model(t: TokenModel) -> bool {
    is_column_option_model(t) || t is Name
}

impl Token {
    pub fn is_column_option(&self) -> (r: bool)
        ensures
            r == is_column_option_model(self@),
    {
        self.is_date_time() || self.is_double() || self.is_integer() || self.is_string()
            || self.is_time() || self.is_ymd()
    }

    pub fn is_table_option(&self) -> (r: bool)
        ensures
            r == is_table_option_model(self@),
    {
        self.is_date_time() || self.is_double() || self.is_integer() || self.is_string()
            || self.is_time() || self.is_ymd() || self.is_name()
    }
}

/// The models of a token vector, in order.
pub open spec fn models(ts: Seq<Token>) -> Seq<TokenModel> {
    ts.map_values(|t: Token| t@)
}

/// Copies the tokens from `from` (inclusive) to `to` (exclusive).
pub(crate) fn subvec_tokens(v: &Vec<Token>, from: usize, to: usize) -> (r: Vec<Token>)
    requires
        from <= to <= v@.len(),
    ensures
        models(r@) == models(v@).subrange(from as int, to as int),
{
    let mut r: Vec<Token> = Vec::new();
    let mut i: usize = from;
    proof {
        assert(models(r@) =~= models(v@).subrange(from as int, from as int));
    }
    while i < to
        invariant
            from <= i <= to <= v@.len(),
            models(v@).len() == v@.len(),
            models(r@) == models(v@).subrange(from as int, i as int),
        decreases to - i,
    {
        let ghost rsnap = r@;
        r.push(v[i].clone());
        proof {
            assert(models(r@) =~= models(rsnap).push(v@[i as int]@));
            assert(models(v@)[i as int] == v@[i as int]@);
            assert(models(v@).subrange(from as int, i + 1) =~= models(v@).subrange(
                from as int,
                i as int,
            ).push(models(v@)[i as int]));
        }
        i = i + 1;
    }
    r
}

/// Immutable ordered sequence of tokens, the lexer's output and the
/// structural parser's input.
#[derive(Debug)]
pub struct Sequence {
    tokens: Vec<Token>,
}

impl View for Sequence {
    type V = Seq<TokenModel>;

    closed spec fn view(&self) -> Seq<TokenModel> {
        self.tokens@.map_values(|t: Token| t@)
    }
}

impl From<Vec<Token>> for Sequence {
    fn from(vec: Vec<Token>) -> (r: Sequence)
        ensures
            r@ == vec@.map_values(|t: Token| t@),
    {
        Sequence { tokens: vec }
    }
}

impl vstd::std_specs::convert::FromSpecImpl<Vec<Token>> for Sequence {
    open spec fn obeys_from_spec() -> bool {
        true
    }

    closed spec fn from_spec(vec: Vec<Token>) -> Sequence {
        Sequence { tokens: vec }
    }
}

impl Sequence {
    /// The token at position `i` (0-indexed).
    pub fn get_token(&self, i: usize) -> (r: Token)
        requires
            i < self@.len(),
        ensures
            r@ == self@[i as int],
    {
        self.tokens[i].clone()
    }

    /// All tokens, in order.
    pub fn get_tokens(&self) -> (r: Vec<Token>)
        ensures
            r@.map_values(|t: Token| t@) == self@,
    {
        let mut out: Vec<Token> = Vec::new();
        let mut i: usize = 0;
        while i < self.tokens.len()
            invariant
                i <= self.tokens.len(),
                out@.len() == i as int,
                forall|j: int| 0 <= j < i ==> out@[j]@ == self.tokens@[j]@,
            decreases self.tokens.len() - i,
        {
            out.push(self.tokens[i].clone());
            i = i + 1;
        }
        proof {
            assert(out@.map_values(|t: Token| t@) =~= self@);
        }
        out
    }
}

} // verus!
