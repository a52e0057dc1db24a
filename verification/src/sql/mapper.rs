//! The values of literals.
use vstd::prelude::*;
use crate::plain;
use crate::sql::error::TranslateError;
use crate::sql::helpers::{self, sql_value_to_engine_value, Translated};
use crate::sql::syntax::SqlExpr;
use crate::value::{EngineValue, ValueModel};

verus! {

/// A way to turn literals into values.
pub trait ValueMapper {
    /// The mapper can be called.
    spec fn ready(&self) -> bool;

    /// The value of a literal.
    spec fn mapped(&self, expr: SqlExpr) -> Translated<ValueModel>;

    fn map_sql_value(&self, expr: &SqlExpr) -> (r: Result<EngineValue, TranslateError>)
        requires
            self.ready(),
        ensures
            plain::outcome(r) == self.mapped(*expr),
    ;
}

/// The mapper for numbers, quoted texts and NULL. It reads doubles with the
/// function that it is given.
#[derive(Clone, Debug)]
pub struct DefaultValueMapper<P> {
    pub parse_float: P,
}

impl<P: Fn(&str) -> Result<u64, String>> ValueMapper for DefaultValueMapper<P> {
    open spec fn ready(&self) -> bool {
        helpers::is_float_parser(self.parse_float)
    }

    open spec fn mapped(&self, expr: SqlExpr) -> Translated<ValueModel> {
        helpers::literal_value(self.parse_float, expr)
    }

    fn map_sql_value(&self, expr: &SqlExpr) -> (r: Result<EngineValue, TranslateError>) {
        sql_value_to_engine_value(expr, &self.parse_float)
    }
}

} // verus!
