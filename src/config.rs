use vstd::prelude::*;
use crate::kline::Key;

verus! {

/// Configuration of the process: the exchange, its endpoints, the database,
/// and the symbols and timeframes to follow.
pub struct Settings {
    pub exchange: String,
    pub poloniex_rest_url_base: String,
    pub poloniex_rest_url_endpoint: String,
    pub poloniex_ws_url: String,
    pub binance_rest_url: String,
    pub binance_ws_url: String,
    pub db_url: String,
    pub symbols: Vec<String>,
    pub timeframes: Vec<String>,
}

/// The pieces of `s` between commas, as `str::split(',')` gives them: one
/// more piece than there are commas, empty pieces included.
pub open spec fn comma_pieces(s: Seq<char>) -> Seq<Seq<char>>
    decreases s.len(),
{
    if s.len() == 0 {
        seq![Seq::empty()]
    } else {
        let pieces = comma_pieces(s.drop_last());
        if s.last() == ',' {
            pieces.push(Seq::empty())
        } else {
            pieces.update(pieces.len() - 1, pieces.last().push(s.last()))
        }
    }
}

/// Relies on `str::split` with a `char` pattern, collected in order.
#[verifier::external_body]
fn split_commas(s: &str) -> (r: Vec<String>)
    ensures
        string_views(r@) == comma_pieces(s@),
{
    s.split(',').map(|p| p.to_string()).collect()
}

/// What `str::trim` returns: `s` without leading and trailing white space.
pub uninterp spec fn trimmed(s: Seq<char>) -> Seq<char>;

/// Relies on `str::trim`, which depends on the characters alone.
#[verifier::external_body]
fn trim(s: &str) -> (r: String)
    ensures
        r@ == trimmed(s@),
{
    s.trim().to_string()
}

/// The entries of a comma-separated list such as `BTC_USDT, ETH_USDT`, each
/// without surrounding white space.
pub fn split_list(s: &str) -> (r: Vec<String>)
    ensures
        string_views(r@) == comma_pieces(s@).map_values(|p: Seq<char>| trimmed(p)),
{
    let pieces = split_commas(s);
    let ghost ps = comma_pieces(s@);
    let mut r: Vec<String> = Vec::new();
    let mut i: usize = 0;
    while i < pieces.len()
        invariant
            i <= pieces@.len(),
            string_views(pieces@) == ps,
            r@.len() == i,
            forall|j: int| 0 <= j < i ==> (#[trigger] r@[j])@ == trimmed(ps[j]),
        decreases pieces@.len() - i,
    {
        proof {
            assert(string_views(pieces@)[i as int] == pieces@[i as int]@);
        }
        r.push(trim(pieces[i].as_str()));
        i = i + 1;
    }
    proof {
        assert(string_views(r@) =~= ps.map_values(|p: Seq<char>| trimmed(p)));
    }
    r
}

/// What `str::replace` returns: `s` with every non-overlapping occurrence of
/// `from` replaced by `to`.
pub uninterp spec fn replaced(s: Seq<char>, from: Seq<char>, to: Seq<char>) -> Seq<char>;

/// Relies on `str::replace`, which depends on its three arguments alone.
#[verifier::external_body]
fn replace_all(s: &str, from: &str, to: &str) -> (r: String)
    ensures
        r@ == replaced(s@, from@, to@),
{
    s.replace(from, to)
}

/// The URL of one series: `endpoint` with its `{base_url}`, `{symbol}` and
/// `{timeframe}` placeholders filled in, in that order.
pub open spec fn url_for(base: Seq<char>, endpoint: Seq<char>, symbol: Seq<char>, timeframe: Seq<char>) -> Seq<char> {
    replaced(
        replaced(replaced(endpoint, "{base_url}"@, base), "{symbol}"@, symbol),
        "{timeframe}"@,
        timeframe,
    )
}

/// One row of [`url_table`]: the timeframes of `symbol`, in order.
pub open spec fn url_row(base: Seq<char>, endpoint: Seq<char>, symbol: Seq<char>, timeframes: Seq<Seq<char>>) -> Seq<
    (Seq<char>, Seq<char>, Seq<char>),
> {
    timeframes.map_values(|t: Seq<char>| (symbol, t, url_for(base, endpoint, symbol, t)))
}

/// Every (symbol, timeframe, URL), symbol by symbol, and within a symbol in
/// the order of the timeframes.
pub open spec fn url_table(base: Seq<char>, endpoint: Seq<char>, symbols: Seq<Seq<char>>, timeframes: Seq<Seq<char>>) -> Seq<
    (Seq<char>, Seq<char>, Seq<char>),
>
    decreases symbols.len(),
{
    if symbols.len() == 0 {
        Seq::empty()
    } else {
        url_table(base, endpoint, symbols.drop_last(), timeframes) + url_row(base, endpoint, symbols.last(), timeframes)
    }
}

pub open spec fn string_views(s: Seq<String>) -> Seq<Seq<char>> {
    s.map_values(|x: String| x@)
}

pub open spec fn triple_views(s: Seq<(String, String, String)>) -> Seq<(Seq<char>, Seq<char>, Seq<char>)> {
    s.map_values(|x: (String, String, String)| (x.0@, x.1@, x.2@))
}

/// The request URL of every pair of a symbol and a timeframe, with the two.
pub fn generate_urls(base_url: &str, endpoint_url: &str, symbols: &[String], timeframes: &[String]) -> (r: Vec<(String, String, String)>)
    ensures
        triple_views(r@) == url_table(base_url@, endpoint_url@, string_views(symbols@), string_views(timeframes@)),
{
    let ghost tfs = string_views(timeframes@);
    let mut urls: Vec<(String, String, String)> = Vec::new();
    let mut i: usize = 0;
    proof {
        assert(string_views(symbols@).take(0) =~= Seq::<Seq<char>>::empty());
        assert(triple_views(urls@) =~= Seq::empty());
    }
    while i < symbols.len()
        invariant
            i <= symbols@.len(),
            tfs == string_views(timeframes@),
            triple_views(urls@) == url_table(base_url@, endpoint_url@, string_views(symbols@).take(i as int), tfs),
        decreases symbols@.len() - i,
    {
        let symbol = &symbols[i];
        let ghost done = triple_views(urls@);
        let mut j: usize = 0;
        proof {
            assert(done + url_row(base_url@, endpoint_url@, symbol@, tfs.take(0)) =~= done);
        }
        while j < timeframes.len()
            invariant
                j <= timeframes@.len(),
                tfs == string_views(timeframes@),
                triple_views(urls@) == done + url_row(base_url@, endpoint_url@, symbol@, tfs.take(j as int)),
            decreases timeframes@.len() - j,
        {
            let timeframe = &timeframes[j];
            let a = replace_all(endpoint_url, "{base_url}", base_url);
            let b = replace_all(a.as_str(), "{symbol}", symbol.as_str());
            let url = replace_all(b.as_str(), "{timeframe}", timeframe.as_str());
            let ghost before = urls@;
            urls.push((symbol.clone(), timeframe.clone(), url));
            proof {
                assert(triple_views(urls@) =~= triple_views(before).push(
                    (symbol@, timeframe@, url_for(base_url@, endpoint_url@, symbol@, timeframe@)),
                ));
                assert(url_row(base_url@, endpoint_url@, symbol@, tfs.take(j as int + 1)) =~= url_row(
                    base_url@,
                    endpoint_url@,
                    symbol@,
                    tfs.take(j as int),
                ).push((symbol@, timeframe@, url_for(base_url@, endpoint_url@, symbol@, timeframe@))));
            }
            j = j + 1;
        }
        proof {
            assert(tfs.take(timeframes@.len() as int) =~= tfs);
            let sv = string_views(symbols@);
            assert(sv.take(i as int + 1).drop_last() =~= sv.take(i as int));
            assert(sv.take(i as int + 1).last() == symbol@);
        }
        i = i + 1;
    }
    proof {
        assert(string_views(symbols@).take(symbols@.len() as int) =~= string_views(symbols@));
    }
    urls
}

/// The keys of a URL list: each entry's symbol and timeframe, in order.
pub fn keys_of_urls(urls: &[(String, String, String)]) -> (r: Vec<Key>)
    ensures
        r@.len() == urls@.len(),
        forall|i: int| 0 <= i < urls@.len() ==> #[trigger] r@[i]@ == (urls@[i].0@, urls@[i].1@),
{
    let mut keys: Vec<Key> = Vec::new();
    let mut i: usize = 0;
    while i < urls.len()
        invariant
            i <= urls@.len(),
            keys@.len() == i,
            forall|j: int| 0 <= j < i ==> #[trigger] keys@[j]@ == (urls@[j].0@, urls@[j].1@),
        decreases urls@.len() - i,
    {
        keys.push(Key { symbol: urls[i].0.clone(), timeframe: urls[i].1.clone() });
        i = i + 1;
    }
    keys
}

} // verus!
