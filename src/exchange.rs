use vstd::prelude::*;
use crate::config::Settings;
use crate::kline::KlineParser;

verus! {

/// Why no exchange could be chosen from the settings.
#[derive(Debug)]
pub enum ExchangeFactoryError {
    MissingExchangeEnv,
    MissingRestUrl(String),
    UnknownExchange(),
}

/// The part an exchange was built without.
#[derive(Debug, Clone, Copy, PartialEq, Eq, Structural)]
pub enum ExchangeBuilderError {
    MissingName,
    MissingRestUrl,
    MissingRestClient,
    MissingParser,
    MissingCandleAggregator,
    MissingDBPool,
}

/// What `str::to_lowercase` returns.
pub uninterp spec fn lower_of(s: Seq<char>) -> Seq<char>;

/// What `str::to_uppercase` returns.
pub uninterp spec fn upper_of(s: Seq<char>) -> Seq<char>;

/// Relies on `str::to_lowercase`, which depends on the characters alone.
#[verifier::external_body]
fn lowercase(s: &str) -> (r: String)
    ensures
        r@ == lower_of(s@),
{
    s.to_lowercase()
}

/// Relies on `str::to_uppercase`, which depends on the characters alone.
#[verifier::external_body]
fn uppercase(s: &str) -> (r: String)
    ensures
        r@ == upper_of(s@),
{
    s.to_uppercase()
}

/// The REST base URL that the settings give for their exchange, matched
/// without regard to case; `None` for an exchange that is not known.
pub open spec fn rest_url_of(settings: &Settings) -> Option<Seq<char>> {
    if lower_of(settings.exchange@) == "poloniex"@ {
        Some(settings.poloniex_rest_url_base@)
    } else if lower_of(settings.exchange@) == "binance"@ {
        Some(settings.binance_rest_url@)
    } else {
        None
    }
}

/// An exchange with everything it needs to fetch, parse and route data: a
/// REST client `C`, a storage handle `P` and a shared aggregator `A`.
pub struct Exchange<C, P, A> {
    pub name: String,
    pub rest_url: String,
    pub rest_client: C,
    pub parser: KlineParser,
    pub aggregator: Option<A>,
    pub db_pool: Option<P>,
}

impl<C, P, A> Exchange<C, P, A> {
    pub fn new(
        name: &str,
        rest_url: &str,
        rest_client: C,
        parser: KlineParser,
        aggregator: Option<A>,
        db_pool: Option<P>,
    ) -> (r: Self)
        ensures
            r.name@ == name@,
            r.rest_url@ == rest_url@,
            r.rest_client == rest_client,
            r.parser == parser,
            r.aggregator == aggregator,
            r.db_pool == db_pool,
    {
        Exchange { name: name.to_string(), rest_url: rest_url.to_string(), rest_client, parser, aggregator, db_pool }
    }
}

/// Chooses the exchange that the settings name.
pub struct ExchangeFactory;

impl ExchangeFactory {
    /// A builder for the exchange of `settings`, holding its name, its REST
    /// URL and `rest_client`.
    pub fn create<C, P, A>(settings: &Settings, rest_client: C) -> (r: Result<ExchangeBuilder<C, P, A>, ExchangeFactoryError>)
        ensures
            settings.exchange@.len() == 0 ==> r matches Err(ExchangeFactoryError::MissingExchangeEnv),
            settings.exchange@.len() > 0 && rest_url_of(settings) is None
                ==> r matches Err(ExchangeFactoryError::UnknownExchange()),
            settings.exchange@.len() > 0 && rest_url_of(settings) is Some && rest_url_of(settings)->0.len() == 0
                ==> (r matches Err(ExchangeFactoryError::MissingRestUrl(e)) && e@ == upper_of(settings.exchange@)),
            settings.exchange@.len() > 0 && rest_url_of(settings) is Some && rest_url_of(settings)->0.len() > 0
                ==> (r matches Ok(b) && b.name is Some && b.name->0@ == settings.exchange@ && b.rest_url is Some
                && b.rest_url->0@ == rest_url_of(settings)->0 && b.rest_client == Some(rest_client)
                && b.db_pool is None && b.parser is None && b.aggregator is None),
    {
        let exchange_name = &settings.exchange;
        if exchange_name.as_str().is_empty() {
            return Err(ExchangeFactoryError::MissingExchangeEnv);
        }
        let lower = lowercase(exchange_name.as_str());
        let rest_url = if lower == "poloniex".to_string() {
            &settings.poloniex_rest_url_base
        } else if lower == "binance".to_string() {
            &settings.binance_rest_url
        } else {
            return Err(ExchangeFactoryError::UnknownExchange());
        };
        if rest_url.as_str().is_empty() {
            return Err(ExchangeFactoryError::MissingRestUrl(uppercase(exchange_name.as_str())));
        }
        Ok(ExchangeBuilder::new().set_name(exchange_name.as_str()).set_rest_url(rest_url.as_str()).set_rest_client(rest_client))
    }
}

/// Collects the parts of an [`Exchange`] one by one.
pub struct ExchangeBuilder<C, P, A> {
    pub name: Option<String>,
    pub rest_url: Option<String>,
    pub rest_client: Option<C>,
    pub db_pool: Option<P>,
    pub parser: Option<KlineParser>,
    pub aggregator: Option<A>,
}

impl<C, P, A> ExchangeBuilder<C, P, A> {
    /// A builder with no part set.
    pub fn new() -> (r: Self)
        ensures
            r.name is None && r.rest_url is None && r.rest_client is None,
            r.db_pool is None && r.parser is None && r.aggregator is None,
    {
        ExchangeBuilder { name: None, rest_url: None, rest_client: None, db_pool: None, parser: None, aggregator: None }
    }

    pub fn set_name(self, name: &str) -> (r: Self)
        ensures
            r.name is Some && r.name->0@ == name@,
            r.rest_url == self.rest_url && r.rest_client == self.rest_client && r.db_pool == self.db_pool,
            r.parser == self.parser && r.aggregator == self.aggregator,
    {
        ExchangeBuilder { name: Some(name.to_string()), ..self }
    }

    pub fn set_rest_url(self, rest_url: &str) -> (r: Self)
        ensures
            r.rest_url is Some && r.rest_url->0@ == rest_url@,
            r.name == self.name && r.rest_client == self.rest_client && r.db_pool == self.db_pool,
            r.parser == self.parser && r.aggregator == self.aggregator,
    {
        ExchangeBuilder { rest_url: Some(rest_url.to_string()), ..self }
    }

    pub fn set_rest_client(self, client: C) -> (r: Self)
        ensures
            r.rest_client == Some(client),
            r.name == self.name && r.rest_url == self.rest_url && r.db_pool == self.db_pool,
            r.parser == self.parser && r.aggregator == self.aggregator,
    {
        ExchangeBuilder { rest_client: Some(client), ..self }
    }

    pub fn set_target_db(self, db_pool: P) -> (r: Self)
        ensures
            r.db_pool == Some(db_pool),
            r.name == self.name && r.rest_url == self.rest_url && r.rest_client == self.rest_client,
            r.parser == self.parser && r.aggregator == self.aggregator,
    {
        ExchangeBuilder { db_pool: Some(db_pool), ..self }
    }

    pub fn set_parser(self, parser: KlineParser) -> (r: Self)
        ensures
            r.parser == Some(parser),
            r.name == self.name && r.rest_url == self.rest_url && r.rest_client == self.rest_client,
            r.db_pool == self.db_pool && r.aggregator == self.aggregator,
    {
        ExchangeBuilder { parser: Some(parser), ..self }
    }

    pub fn set_aggregator(self, aggregator: A) -> (r: Self)
        ensures
            r.aggregator == Some(aggregator),
            r.name == self.name && r.rest_url == self.rest_url && r.rest_client == self.rest_client,
            r.db_pool == self.db_pool && r.parser == self.parser,
    {
        ExchangeBuilder { aggregator: Some(aggregator), ..self }
    }

    /// The exchange, once name, REST URL, client, parser and storage are set;
    /// otherwise the first of these, in that order, that is missing. The
    /// aggregator is optional.
    pub fn build(self) -> (r: Result<Exchange<C, P, A>, ExchangeBuilderError>)
        ensures
            self.name is None ==> r == Err::<Exchange<C, P, A>, _>(ExchangeBuilderError::MissingName),
            self.name is Some && self.rest_url is None
                ==> r == Err::<Exchange<C, P, A>, _>(ExchangeBuilderError::MissingRestUrl),
            self.name is Some && self.rest_url is Some && self.rest_client is None
                ==> r == Err::<Exchange<C, P, A>, _>(ExchangeBuilderError::MissingRestClient),
            self.name is Some && self.rest_url is Some && self.rest_client is Some && self.parser is None
                ==> r == Err::<Exchange<C, P, A>, _>(ExchangeBuilderError::MissingParser),
            self.name is Some && self.rest_url is Some && self.rest_client is Some && self.parser is Some
                && self.db_pool is None ==> r == Err::<Exchange<C, P, A>, _>(ExchangeBuilderError::MissingDBPool),
            self.name is Some && self.rest_url is Some && self.rest_client is Some && self.parser is Some
                && self.db_pool is Some ==> (r matches Ok(e)
                && e.name@ == self.name->0@ && e.rest_url@ == self.rest_url->0@
                && e.rest_client == self.rest_client->0 && e.parser == self.parser->0
                && e.aggregator == self.aggregator && e.db_pool == self.db_pool),
    {
        let name = match self.name {
            Some(n) => n,
            None => return Err(ExchangeBuilderError::MissingName),
        };
        let rest_url = match self.rest_url {
            Some(u) => u,
            None => return Err(ExchangeBuilderError::MissingRestUrl),
        };
        let rest_client = match self.rest_client {
            Some(c) => c,
            None => return Err(ExchangeBuilderError::MissingRestClient),
        };
        let parser = match self.parser {
            Some(p) => p,
            None => return Err(ExchangeBuilderError::MissingParser),
        };
        let pool = match self.db_pool {
            Some(p) => p,
            None => return Err(ExchangeBuilderError::MissingDBPool),
        };
        Ok(Exchange::new(name.as_str(), rest_url.as_str(), rest_client, parser, self.aggregator, Some(pool)))
    }
}

} // verus!
