use vstd::prelude::*;

verus! {

/// The abstract value of a key: its symbol and timeframe as character sequences.
pub type KeyView = (Seq<char>, Seq<char>);

/// Identity of a series: a trading pair and a timeframe such as `1m`.
pub struct Key {
    pub symbol: String,
    pub timeframe: String,
}

impl View for Key {
    type V = KeyView;

    open spec fn view(&self) -> KeyView {
        (self.symbol@, self.timeframe@)
    }
}

impl Clone for Key {
    fn clone(&self) -> (r: Self)
        ensures
            r == *self,
    {
        Key { symbol: self.symbol.clone(), timeframe: self.timeframe.clone() }
    }
}

impl Key {
    pub fn new(symbol: &str, timeframe: &str) -> (r: Key)
        ensures
            r@ == (symbol@, timeframe@),
    {
        Key { symbol: symbol.to_string(), timeframe: timeframe.to_string() }
    }

    /// Whether two keys name the same series.
    pub fn same_as(&self, other: &Key) -> (r: bool)
        ensures
            r == (self@ == other@),
    {
        self.symbol == other.symbol && self.timeframe == other.timeframe
    }
}

/// Volume of one candle, split by side and by currency. Each amount is held as
/// the IEEE-754 bit pattern of a double (`f64::to_bits`): the library routes
/// and stores these values but never computes with them.
#[derive(Clone, Copy, PartialEq, Eq, Debug)]
pub struct VBS {
    pub buy_base: u64,
    pub sell_base: u64,
    pub buy_quote: u64,
    pub sell_quote: u64,
}

/// One candle of a series. Prices are IEEE-754 bit patterns, as in [`VBS`];
/// `utc_begin` is the start of the candle's period in unix seconds.
pub struct Kline {
    pub pair: String,
    pub time_frame: String,
    pub o: u64,
    pub h: u64,
    pub l: u64,
    pub c: u64,
    pub utc_begin: i64,
    pub volume_bs: VBS,
}

impl Clone for Kline {
    fn clone(&self) -> (r: Self)
        ensures
            r == *self,
    {
        Kline {
            pair: self.pair.clone(),
            time_frame: self.time_frame.clone(),
            o: self.o,
            h: self.h,
            l: self.l,
            c: self.c,
            utc_begin: self.utc_begin,
            volume_bs: self.volume_bs,
        }
    }
}

impl Kline {
    /// The key of the series this candle belongs to.
    pub open spec fn key_view(&self) -> KeyView {
        (self.pair@, self.time_frame@)
    }

    pub fn key(&self) -> (r: Key)
        ensures
            r@ == self.key_view(),
    {
        Key { symbol: self.pair.clone(), timeframe: self.time_frame.clone() }
    }
}

/// One trade as reported by an exchange.
pub struct RecentTrade {
    pub tid: String,
    pub pair: String,
    pub price: String,
    pub amount: String,
    pub side: String,
    pub timestamp: i64,
}

/// Turns exchange responses into candles.
#[derive(Clone, Copy, PartialEq, Eq, Structural, Debug)]
pub struct KlineParser;

impl KlineParser {
    pub fn new() -> (r: KlineParser)
        ensures
            r == KlineParser,
    {
        KlineParser
    }
}

/// The latest candle of a non-empty sequence: the one with the greatest
/// `utc_begin`, and of several such the last.
pub open spec fn latest(s: Seq<Kline>) -> Kline
    recommends
        s.len() > 0,
    decreases s.len(),
{
    if s.len() <= 1 {
        s[0]
    } else {
        let m = latest(s.drop_last());
        if s.last().utc_begin >= m.utc_begin {
            s.last()
        } else {
            m
        }
    }
}

/// Returns the latest candle of `klines` (see [`latest`]).
pub fn latest_kline(klines: &Vec<Kline>) -> (r: Option<Kline>)
    ensures
        klines@.len() == 0 ==> r is None,
        klines@.len() > 0 ==> r == Some(latest(klines@)),
{
    if klines.len() == 0 {
        return None;
    }
    let mut best: usize = 0;
    let mut i: usize = 1;
    while i < klines.len()
        invariant
            1 <= i <= klines@.len(),
            best < i,
            klines@[best as int] == latest(klines@.take(i as int)),
        decreases klines@.len() - i,
    {
        proof {
            assert(klines@.take(i as int + 1).drop_last() =~= klines@.take(i as int));
        }
        if klines[i].utc_begin >= klines[best].utc_begin {
            best = i;
        }
        i = i + 1;
    }
    proof {
        assert(klines@.take(klines@.len() as int) =~= klines@);
    }
    Some(klines[best].clone())
}

} // verus!
