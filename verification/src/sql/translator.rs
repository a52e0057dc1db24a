//! The translator as one object.
use vstd::prelude::*;
use crate::plain;
use crate::query::{EngineQuery, QueryModel};
use crate::schema_resolver::SchemaResolver;
use crate::sql::convert;
use crate::sql::engine_adapter::EngineAdapter;
use crate::sql::error::TranslateError;
use crate::sql::helpers::Translated;
use crate::sql::mapper::{DefaultValueMapper, ValueMapper};
use crate::sql::translate::{self, parse_and_translate, parse_and_translate_to_ir};

verus! {

/// Translates SQL with the default mapper, which reads doubles with the
/// function that the translator is made with.
pub struct Translator<P> {
    mapper: DefaultValueMapper<P>,
}

/// What an adapter makes of a translation.
pub open spec fn lowered_query<A: EngineAdapter>(q: Translated<QueryModel>, adapter: A) -> Translated<
    <A::Output as DeepView>::V,
> {
    match q {
        Err(r) => Err(r),
        Ok(q) => adapter.lowered(q),
    }
}

impl<P: Fn(&str) -> Result<u64, String>> Translator<P> {
    /// The mapper that the translator uses.
    pub closed spec fn mapping(&self) -> DefaultValueMapper<P> {
        self.mapper
    }

    pub fn new(parse_float: P) -> (r: Translator<P>)
        ensures
            r.mapping() == (DefaultValueMapper { parse_float }),
    {
        Translator { mapper: DefaultValueMapper { parse_float } }
    }

    /// Parses SQL and gives the query that it is.
    pub fn sql_to_engine_query<R: SchemaResolver>(&self, sql: &str, resolver: &R) -> (r: Result<
        EngineQuery,
        TranslateError,
    >)
        requires
            self.mapping().ready(),
        ensures
            plain::outcome(r) == translate::as_query(
                translate::parsed_statement(convert::statements_in(sql@), *resolver, self.mapping()),
            ),
    {
        parse_and_translate(sql, resolver, &self.mapper)
    }

    /// Parses SQL and lowers the query that it is with the adapter.
    pub fn sql_to_adapter<R: SchemaResolver, A: EngineAdapter>(
        &self,
        sql: &str,
        resolver: &R,
        adapter: &A,
    ) -> (r: Result<A::Output, TranslateError>)
        requires
            self.mapping().ready(),
        ensures
            plain::outcome(r) == lowered_query(
                translate::parsed_query(convert::statements_in(sql@), *resolver, self.mapping()),
                *adapter,
            ),
    {
        match parse_and_translate_to_ir(sql, resolver, &self.mapper) {
            Ok(cq) => adapter.lower(&cq),
            Err(e) => Err(e),
        }
    }
}

} // verus!
