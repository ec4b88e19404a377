//! The reduced form of a validated migration: method, table name, and
//! ordered collections of column and table options, keyed by name.
//!
//! Both collections preserve insertion order; adding options under an
//! existing name appends to that entry instead of creating a second one,
//! so names stay unique while duplicates accumulate.

use vstd::prelude::*;

use crate::syntax::SyntaxError;
use crate::token::{models, Token, TokenModel};

verus! {

/// One named option list: `(name, values)` pairs under an option name.
pub type OptEntry = (String, Vec<(String, Vec<Token>)>);

/// Model of one option's parameter list.
pub open spec fn sopts_view(v: Seq<(String, Vec<Token>)>) -> Seq<(Seq<char>, Seq<TokenModel>)> {
    v.map_values(|p: (String, Vec<Token>)| (p.0@, models(p.1@)))
}

/// Model of an ordered, name-keyed option collection.
pub open spec fn opt_map_view(v: Seq<OptEntry>) -> Seq<
    (Seq<char>, Seq<(Seq<char>, Seq<TokenModel>)>),
> {
    v.map_values(|e: OptEntry| (e.0@, sopts_view(e.1@)))
}

/// No two entries share a name.
pub open spec fn unique_keys(m: Seq<(Seq<char>, Seq<(Seq<char>, Seq<TokenModel>)>)>) -> bool {
    forall|i: int, j: int| 0 <= i < j < m.len() ==> (#[trigger] m[i]).0 != (#[trigger] m[j]).0
}

/// The reduced migration.
#[derive(Debug)]
pub struct Mig {
    pub method: String,
    pub table_name: String,
    pub column_options: Vec<OptEntry>,
    pub table_options: Vec<OptEntry>,
}

/// How adding `(key, new)` changes a name-keyed collection: a fresh name
/// is appended; an existing name has the options appended to its entry.
pub open spec fn added_to(
    m0: Seq<(Seq<char>, Seq<(Seq<char>, Seq<TokenModel>)>)>,
    key: Seq<char>,
    new: Seq<(Seq<char>, Seq<TokenModel>)>,
    m1: Seq<(Seq<char>, Seq<(Seq<char>, Seq<TokenModel>)>)>,
) -> bool {
    if forall|j: int| 0 <= j < m0.len() ==> (#[trigger] m0[j]).0 != key {
        m1 == m0.push((key, new))
    } else {
        exists|k: int|
            0 <= k < m0.len() && (#[trigger] m0[k]).0 == key && m1 == m0.update(
                k,
                (key, m0[k].1 + new),
            )
    }
}

impl Mig {
    /// Names stay unique within each collection.
    pub open spec fn wf(self) -> bool {
        unique_keys(opt_map_view(self.column_options@)) && unique_keys(
            opt_map_view(self.table_options@),
        )
    }

    /// An empty migration: no method, no table, no options.
    pub fn new() -> (r: Self)
        ensures
            r.method@ == Seq::<char>::empty(),
            r.table_name@ == Seq::<char>::empty(),
            opt_map_view(r.column_options@) == Seq::<
                (Seq<char>, Seq<(Seq<char>, Seq<TokenModel>)>),
            >::empty(),
            opt_map_view(r.table_options@) == Seq::<
                (Seq<char>, Seq<(Seq<char>, Seq<TokenModel>)>),
            >::empty(),
            r.wf(),
    {
        let r = Mig {
            method: String::new(),
            table_name: String::new(),
            column_options: Vec::new(),
            table_options: Vec::new(),
        };
        proof {
            assert(opt_map_view(r.column_options@) =~= Seq::<
                (Seq<char>, Seq<(Seq<char>, Seq<TokenModel>)>),
            >::empty());
            assert(opt_map_view(r.table_options@) =~= Seq::<
                (Seq<char>, Seq<(Seq<char>, Seq<TokenModel>)>),
            >::empty());
        }
        r
    }

    /// Sets the method name from a directive token; any other token kind
    /// is a structural error and changes nothing.
    pub fn set_method(&mut self, method_name: Token) -> (r: Result<(), SyntaxError>)
        ensures
            match r {
                Ok(u) => method_name@ is NameColon && final(self).method@
                    == method_name@->NameColon_0,
                Err(e) => !(method_name@ is NameColon) && e@
                    == crate::syntax::SyntaxErrorModel::UnknownError && final(self).method
                    == old(self).method,
            },
            final(self).table_name == old(self).table_name,
            final(self).column_options == old(self).column_options,
            final(self).table_options == old(self).table_options,
            old(self).wf() ==> final(self).wf(),
    {
        match method_name {
            Token::NameColon(s) => {
                self.method = s;
                Ok(())
            },
            _ => Err(SyntaxError::UnknownError),
        }
    }

    /// Sets the table name from a bare-name token; any other token kind is
    /// a structural error and changes nothing.
    pub fn set_table_name(&mut self, table_name: Token) -> (r: Result<(), SyntaxError>)
        ensures
            match r {
                Ok(u) => table_name@ is Name && final(self).table_name@ == table_name@->Name_0,
                Err(e) => !(table_name@ is Name) && e@
                    == crate::syntax::SyntaxErrorModel::UnknownError && final(self).table_name
                    == old(self).table_name,
            },
            final(self).method == old(self).method,
            final(self).column_options == old(self).column_options,
            final(self).table_options == old(self).table_options,
            old(self).wf() ==> final(self).wf(),
    {
        match table_name {
            Token::Name(s) => {
                self.table_name = s;
                Ok(())
            },
            _ => Err(SyntaxError::UnknownError),
        }
    }

    /// Adds a column's options under the column's name; a repeated name
    /// accumulates. Any token but a bare name is a structural error and
    /// changes nothing.
    pub fn add_column_options(&mut self, column_name: Token, options: Vec<(String, Vec<Token>)>)
        -> (r: Result<(), SyntaxError>)
        requires
            old(self).wf(),
        ensures
            final(self).wf(),
            match r {
                Ok(u) => column_name@ is Name && added_to(
                    opt_map_view(old(self).column_options@),
                    column_name@->Name_0,
                    sopts_view(options@),
                    opt_map_view(final(self).column_options@),
                ),
                Err(e) => !(column_name@ is Name) && e@
                    == crate::syntax::SyntaxErrorModel::UnknownError && final(self).column_options
                    == old(self).column_options,
            },
            final(self).method == old(self).method,
            final(self).table_name == old(self).table_name,
            final(self).table_options == old(self).table_options,
    {
        match column_name {
            Token::Name(name) => {
                add_options(&mut self.column_options, name, options);
                Ok(())
            },
            _ => Err(SyntaxError::UnknownError),
        }
    }

    /// Adds a table option's parameters under the option's name; a
    /// repeated name accumulates. Any token but a directive is a
    /// structural error and changes nothing.
    pub fn add_table_options(&mut self, option_name: Token, options: Vec<(String, Vec<Token>)>)
        -> (r: Result<(), SyntaxError>)
        requires
            old(self).wf(),
        ensures
            final(self).wf(),
            match r {
                Ok(u) => option_name@ is NameColon && added_to(
                    opt_map_view(old(self).table_options@),
                    option_name@->NameColon_0,
                    sopts_view(options@),
                    opt_map_view(final(self).table_options@),
                ),
                Err(e) => !(option_name@ is NameColon) && e@
                    == crate::syntax::SyntaxErrorModel::UnknownError && final(self).table_options
                    == old(self).table_options,
            },
            final(self).method == old(self).method,
            final(self).table_name == old(self).table_name,
            final(self).column_options == old(self).column_options,
    {
        match option_name {
            Token::NameColon(name) => {
                add_options(&mut self.table_options, name, options);
                Ok(())
            },
            _ => Err(SyntaxError::UnknownError),
        }
    }
}

/// Appends `options` under `name`: to the existing entry when the name is
/// present, as a fresh entry at the end otherwise.
fn add_options(list: &mut Vec<OptEntry>, name: String, options: Vec<(String, Vec<Token>)>)
    requires
        unique_keys(opt_map_view(old(list)@)),
    ensures
        unique_keys(opt_map_view(final(list)@)),
        added_to(opt_map_view(old(list)@), name@, sopts_view(options@), opt_map_view(final(list)@)),
{
    let ghost m0 = opt_map_view(list@);
    let mut i: usize = 0;
    let mut found: Option<usize> = None;
    while i < list.len()
        invariant
            i <= list@.len(),
            m0 == opt_map_view(list@),
            m0.len() == list@.len(),
            match found {
                Some(k) => k < list@.len() && m0[k as int].0 == name@,
                None => forall|j: int| 0 <= j < i ==> (#[trigger] m0[j]).0 != name@,
            },
        ensures
            m0 == opt_map_view(list@),
            m0.len() == list@.len(),
            match found {
                Some(k) => k < list@.len() && m0[k as int].0 == name@,
                None => forall|j: int| 0 <= j < m0.len() ==> (#[trigger] m0[j]).0 != name@,
            },
        decreases list@.len() - i,
    {
        proof {
            assert(m0[i as int].0 == list@[i as int].0@);
        }
        if list[i].0.eq(&name) {
            found = Some(i);
            break ;
        }
        i = i + 1;
    }
    match found {
        None => {
            let ghost lsnap = list@;
            list.push((name, options));
            proof {
                assert(opt_map_view(list@) =~= m0.push(
                    (name@, sopts_view(options@)),
                ));
                assert forall|a: int, b: int|
                    0 <= a < b < opt_map_view(list@).len() implies (#[trigger] opt_map_view(
                    list@,
                )[a]).0 != (#[trigger] opt_map_view(list@)[b]).0 by {
                    if b < m0.len() {
                        assert(opt_map_view(list@)[a] == m0[a]);
                        assert(opt_map_view(list@)[b] == m0[b]);
                    } else {
                        assert(opt_map_view(list@)[b].0 == name@);
                        assert(opt_map_view(list@)[a] == m0[a]);
                    }
                }
            }
        },
        Some(k) => {
            let entry = list.remove(k);
            let (ename, mut evals) = entry;
            let ghost evsnap = evals@;
            let mut opts = options;
            evals.append(&mut opts);
            proof {
                assert(sopts_view(evals@) =~= sopts_view(evsnap) + sopts_view(options@));
            }
            list.insert(k, (ename, evals));
            proof {
                let m1 = opt_map_view(list@);
                let ek = (m0[k as int].0, m0[k as int].1 + sopts_view(options@));
                assert(m0[k as int] == (entry_view(ename@, evsnap)));
                assert(m1 =~= m0.update(k as int, ek));
                assert forall|a: int, b: int| 0 <= a < b < m1.len() implies (#[trigger] m1[a]).0
                    != (#[trigger] m1[b]).0 by {
                    assert(m1[a].0 == m0[a].0);
                    assert(m1[b].0 == m0[b].0);
                }
                assert(added_to(m0, name@, sopts_view(options@), m1));
            }
        },
    }
}

/// The model of one stored entry.
pub open spec fn entry_view(name: Seq<char>, vals: Seq<(String, Vec<Token>)>) -> (
    Seq<char>,
    Seq<(Seq<char>, Seq<TokenModel>)>,
) {
    (name, sopts_view(vals))
}

} // verus!
