//! Display modes as the command line writes them: `WIDTHxHEIGHT` followed
//! by an optional `@RATE/RATE/...` list, with the refresh rates kept as a
//! sorted set.

use std::collections::BTreeSet;

use vstd::prelude::*;

use crate::model::{copy_rates, Dimen, RefreshRate};
use crate::rate_set::{add_rate, remove_rate, sorted_rates};
use crate::text::{
    chars_of, decimal, is_first_index, lemma_decimal_digits, lemma_first_index_unique,
    lemma_parse_decimal, lemma_split_around, lemma_split_no_sep, lemma_split_on_nonempty,
    parse_u32_chars, push_decimal, spec_parse_u32, split_on, split_once, all_digits,
    string_from_chars,
};
use crate::messages::push_str;

verus! {

/// Refresh rate given to a mode written without any.
pub const DEFAULT_REFRESH_RATE: RefreshRate = 60;

/// Whether a list of refresh rates is strictly increasing.
pub open spec fn ascending(s: Seq<RefreshRate>) -> bool {
    forall|i: int, j: int| 0 <= i < j < s.len() ==> s[i] < s[j]
}

/// A resolution with a set of refresh rates.
pub struct Mode {
    width: Dimen,
    height: Dimen,
    refresh_rates: Vec<RefreshRate>,
}

/// Mathematical value of a [`Mode`].
pub struct ModeValue {
    pub width: Dimen,
    pub height: Dimen,
    pub rates: Set<RefreshRate>,
}

impl View for Mode {
    type V = ModeValue;

    closed spec fn view(&self) -> ModeValue {
        ModeValue { width: self.width, height: self.height, rates: self.refresh_rates@.to_set() }
    }
}

/// Why a mode string was rejected.
#[derive(Debug)]
pub enum ModeParseError {
    /// No `x` between width and height.
    InvalidResolution,
    /// The width is not a number.
    InvalidWidth,
    /// The height is not a number.
    InvalidHeight,
    /// This piece of the refresh rate list is not a number.
    InvalidRefreshRate(String),
}

/// Mathematical value of a [`ModeParseError`].
pub enum ModeParseFailure {
    InvalidResolution,
    InvalidWidth,
    InvalidHeight,
    InvalidRefreshRate(Seq<char>),
}

impl View for ModeParseError {
    type V = ModeParseFailure;

    open spec fn view(&self) -> ModeParseFailure {
        match self {
            ModeParseError::InvalidResolution => ModeParseFailure::InvalidResolution,
            ModeParseError::InvalidWidth => ModeParseFailure::InvalidWidth,
            ModeParseError::InvalidHeight => ModeParseFailure::InvalidHeight,
            ModeParseError::InvalidRefreshRate(s) => ModeParseFailure::InvalidRefreshRate(s@),
        }
    }
}

/// `i` is the first piece of a refresh rate list that is not a number.
pub open spec fn is_first_bad_piece(ps: Seq<Seq<char>>, i: int) -> bool {
    &&& 0 <= i < ps.len()
    &&& spec_parse_u32(ps[i]) is None
    &&& forall|j: int| 0 <= j < i ==> spec_parse_u32(#[trigger] ps[j]) is Some
}

/// The refresh rates that the pieces of a list spell.
pub open spec fn parsed_rates(ps: Seq<Seq<char>>) -> Set<RefreshRate> {
    Set::new(|r: RefreshRate| exists|i: int| 0 <= i < ps.len() && spec_parse_u32(#[trigger] ps[i]) == Some(r))
}

/// What parsing the refresh rate list of a mode gives: the first piece
/// that is not a number is the error.
pub open spec fn parse_rate_list(w: Dimen, h: Dimen, l: Seq<char>) -> Result<ModeValue, ModeParseFailure> {
    let ps = split_on(l, '/');
    if exists|i: int| is_first_bad_piece(ps, i) {
        Err(ModeParseFailure::InvalidRefreshRate(ps[choose|i: int| is_first_bad_piece(ps, i)]))
    } else {
        Ok(ModeValue { width: w, height: h, rates: parsed_rates(ps) })
    }
}

/// What parsing a mode string gives: `WIDTHxHEIGHT`, then optionally `@`
/// and a `/`-separated list of refresh rates. The resolution is cut at the
/// first `@`, and width and height at the first `x`.
pub open spec fn spec_parse_mode(s: Seq<char>) -> Result<ModeValue, ModeParseFailure> {
    let (resolution, list) = match split_once(s, '@') {
        Some(parts) => (parts.0, Some(parts.1)),
        None => (s, None),
    };
    match split_once(resolution, 'x') {
        None => Err(ModeParseFailure::InvalidResolution),
        Some(wh) => match spec_parse_u32(wh.0) {
            None => Err(ModeParseFailure::InvalidWidth),
            Some(w) => match spec_parse_u32(wh.1) {
                None => Err(ModeParseFailure::InvalidHeight),
                Some(h) => match list {
                    None => Ok(ModeValue { width: w, height: h, rates: Set::empty() }),
                    Some(l) => parse_rate_list(w, h, l),
                },
            },
        },
    }
}

/// The refresh rates written in decimal and joined by `/`.
pub open spec fn join_rates(q: Seq<RefreshRate>) -> Seq<char>
    decreases q.len(),
{
    if q.len() == 0 {
        Seq::empty()
    } else if q.len() == 1 {
        decimal(q[0] as nat)
    } else {
        join_rates(q.drop_last()).push('/') + decimal(q.last() as nat)
    }
}

/// The text of a mode: `WxH`, followed by `@` and the refresh rates in
/// increasing order when there are any.
pub open spec fn render(w: Dimen, h: Dimen, q: Seq<RefreshRate>) -> Seq<char> {
    let resolution = decimal(w as nat).push('x') + decimal(h as nat);
    if q.len() == 0 {
        resolution
    } else {
        resolution.push('@') + join_rates(q)
    }
}

/// Copy of `v[lo..hi]`.
fn sub_chars(v: &[char], lo: usize, hi: usize) -> (res: Vec<char>)
    requires
        lo <= hi <= v@.len(),
    ensures
        res@ == v@.subrange(lo as int, hi as int),
{
    let mut res: Vec<char> = Vec::new();
    let mut i = lo;
    while i < hi
        invariant
            lo <= i <= hi <= v@.len(),
            res@ == v@.subrange(lo as int, i as int),
        decreases hi - i,
    {
        res.push(v[i]);
        assert(res@ =~= v@.subrange(lo as int, i + 1));
        i = i + 1;
    }
    res
}

/// Position of the first `c` in `v`.
fn find_char(v: &[char], c: char) -> (res: Option<usize>)
    ensures
        match res {
            Some(i) => is_first_index(v@, c, i as int),
            None => !v@.contains(c),
        },
{
    let mut i: usize = 0;
    while i < v.len()
        invariant
            i <= v@.len(),
            forall|j: int| 0 <= j < i ==> v@[j] != c,
        decreases v@.len() - i,
    {
        if v[i] == c {
            return Some(i);
        }
        i = i + 1;
    }
    None
}

/// Splits at the first `c`, as `str::split_once`.
fn split_once_chars(v: &[char], c: char) -> (res: Option<(Vec<char>, Vec<char>)>)
    ensures
        match res {
            Some(p) => split_once(v@, c) == Some((p.0@, p.1@)),
            None => split_once(v@, c) is None,
        },
{
    match find_char(v, c) {
        Some(i) => {
            assert(is_first_index(v@, c, i as int));
            assert(i < v.len());
            proof {
                let k = choose|k: int| is_first_index(v@, c, k);
                lemma_first_index_unique(v@, c, i as int, k);
            }
            Some((sub_chars(v, 0, i), sub_chars(v, i + 1, v.len())))
        },
        None => {
            assert forall|i: int| !is_first_index(v@, c, i) by {
                if is_first_index(v@, c, i) {
                    assert(v@.contains(c));
                }
            }
            None
        },
    }
}

/// The character lists of a list of pieces.
pub open spec fn pieces_view(v: Seq<Vec<char>>) -> Seq<Seq<char>> {
    v.map_values(|p: Vec<char>| p@)
}

/// Splits at every `sep`.
fn split_chars(v: &[char], sep: char) -> (res: Vec<Vec<char>>)
    ensures
        pieces_view(res@) == split_on(v@, sep),
{
    let mut pieces: Vec<Vec<char>> = Vec::new();
    let mut cur: Vec<char> = Vec::new();
    assert(v@.take(0) =~= Seq::<char>::empty());
    for i in 0..v.len()
        invariant
            pieces_view(pieces@).push(cur@) == split_on(v@.take(i as int), sep),
    {
        let ghost prefix = v@.take(i as int);
        assert(v@.take(i + 1).drop_last() == prefix);
        assert(v@.take(i + 1).last() == v@[i as int]);
        let c = v[i];
        if c == sep {
            let ghost pv = pieces_view(pieces@);
            let mut done: Vec<char> = Vec::new();
            std::mem::swap(&mut cur, &mut done);
            let ghost dv = done@;
            pieces.push(done);
            assert(pieces_view(pieces@) =~= pv.push(dv));
            assert(pieces_view(pieces@).push(cur@) =~= split_on(prefix, sep).push(Seq::empty()));
        } else {
            let ghost parts = split_on(prefix, sep);
            cur.push(c);
            assert(pieces_view(pieces@).push(cur@) =~= parts.update(
                parts.len() - 1,
                parts.last().push(c),
            ));
        }
    }
    assert(v@.take(v.len() as int) == v@);
    pieces.push(cur);
    pieces
}

/// The elements of a pushed sequence.
proof fn lemma_push_to_set(s: Seq<RefreshRate>, x: RefreshRate)
    ensures
        s.push(x).to_set() == s.to_set().insert(x),
{
    assert forall|y: RefreshRate| s.push(x).to_set().contains(y) <==> s.to_set().insert(x).contains(
        y,
    ) by {
        if s.push(x).contains(y) {
            let k = choose|k: int| 0 <= k < s.push(x).len() && s.push(x)[k] == y;
            if k < s.len() {
                assert(s[k] == y);
            }
        }
        if s.contains(y) {
            let k = choose|k: int| 0 <= k < s.len() && s[k] == y;
            assert(s.push(x)[k] == y);
        }
        if y == x {
            assert(s.push(x)[s.len() as int] == x);
        }
    }
    assert(s.push(x).to_set() =~= s.to_set().insert(x));
}

/// The set of the given refresh rates.
fn rate_set_of(rates: &[RefreshRate]) -> (res: BTreeSet<RefreshRate>)
    ensures
        res@ == rates@.to_set(),
{
    let mut set: BTreeSet<RefreshRate> = BTreeSet::new();
    assert(rates@.take(0).to_set() =~= Set::<RefreshRate>::empty());
    for i in 0..rates.len()
        invariant
            set@ == rates@.take(i as int).to_set(),
    {
        add_rate(&mut set, rates[i]);
        assert(rates@.take(i + 1) == rates@.take(i as int).push(rates@[i as int]));
        proof {
            lemma_push_to_set(rates@.take(i as int), rates@[i as int]);
        }
    }
    assert(rates@.take(rates.len() as int) == rates@);
    set
}

impl Mode {
    /// The mode's width.
    pub fn width(&self) -> (res: Dimen)
        ensures
            res == self@.width,
    {
        self.width
    }

    /// The mode's height.
    pub fn height(&self) -> (res: Dimen)
        ensures
            res == self@.height,
    {
        self.height
    }

    /// The refresh rates, in increasing order.
    pub fn refresh_rates(&self) -> (res: &[RefreshRate])
        ensures
            ascending(res@),
            res@.to_set() == self@.rates,
    {
        proof {
            use_type_invariant(self);
        }
        self.refresh_rates.as_slice()
    }

    #[verifier::type_invariant]
    closed spec fn inv(self) -> bool {
        ascending(self.refresh_rates@)
    }

    /// A mode with these dimensions and the set of the given refresh rates.
    pub fn new(width: Dimen, height: Dimen, rates: &[RefreshRate]) -> (res: Mode)
        ensures
            res@.width == width,
            res@.height == height,
            res@.rates == rates@.to_set(),
    {
        let set = rate_set_of(rates);
        Mode { width, height, refresh_rates: sorted_rates(&set) }
    }

    /// The mode of a driver mode: its resolution and the set of its rates.
    pub fn from_ipc(mode: &crate::model::Mode) -> (res: Mode)
        ensures
            res@.width == mode.width,
            res@.height == mode.height,
            res@.rates == mode.refresh_rates@.to_set(),
    {
        Mode::new(mode.width, mode.height, mode.refresh_rates.as_slice())
    }

    /// The driver mode of this mode: its rates in increasing order, or the
    /// default refresh rate when it has none.
    pub fn into_ipc(&self) -> (res: crate::model::Mode)
        ensures
            res.width == self@.width,
            res.height == self@.height,
            self@.rates.is_empty() ==> res.refresh_rates@ == seq![DEFAULT_REFRESH_RATE],
            !self@.rates.is_empty() ==> ascending(res.refresh_rates@) && res.refresh_rates@.to_set()
                == self@.rates,
    {
        proof {
            use_type_invariant(self);
        }
        let rates = if self.refresh_rates.len() == 0 {
            proof {
                assert(self.refresh_rates@.to_set() =~= Set::<RefreshRate>::empty());
            }
            let mut v: Vec<RefreshRate> = Vec::new();
            v.push(DEFAULT_REFRESH_RATE);
            v
        } else {
            proof {
                assert(self.refresh_rates@.to_set().contains(self.refresh_rates@[0]));
            }
            copy_rates(&self.refresh_rates)
        };
        crate::model::Mode { width: self.width, height: self.height, refresh_rates: rates }
    }

    /// Parses a mode string such as `1920x1080` or `1920x1080@60/144`.
    pub fn parse(s: &str) -> (res: Result<Mode, ModeParseError>)
        ensures
            match res {
                Ok(m) => spec_parse_mode(s@) == Ok::<ModeValue, ModeParseFailure>(m@),
                Err(e) => spec_parse_mode(s@) == Err::<ModeValue, ModeParseFailure>(e@),
            },
    {
        let cs = chars_of(s);
        let (resolution, list) = match split_once_chars(cs.as_slice(), '@') {
            Some((r, l)) => (r, Some(l)),
            None => (cs, None),
        };
        let (wc, hc) = match split_once_chars(resolution.as_slice(), 'x') {
            Some(p) => p,
            None => {
                return Err(ModeParseError::InvalidResolution);
            },
        };
        let width = match parse_u32_chars(wc.as_slice()) {
            Some(w) => w,
            None => {
                return Err(ModeParseError::InvalidWidth);
            },
        };
        let height = match parse_u32_chars(hc.as_slice()) {
            Some(h) => h,
            None => {
                return Err(ModeParseError::InvalidHeight);
            },
        };
        let list = match list {
            Some(l) => l,
            None => {
                let m = Mode { width, height, refresh_rates: Vec::new() };
                assert(m@.rates =~= Set::<RefreshRate>::empty());
                return Ok(m);
            },
        };
        assert(spec_parse_mode(s@) == parse_rate_list(width, height, list@));
        let pieces = split_chars(list.as_slice(), '/');
        let ghost ps = pieces_view(pieces@);
        let mut set: BTreeSet<RefreshRate> = BTreeSet::new();
        let mut i: usize = 0;
        while i < pieces.len()
            invariant
                ps == pieces_view(pieces@),
                ps == split_on(list@, '/'),
                spec_parse_mode(s@) == parse_rate_list(width, height, list@),
                i <= pieces@.len(),
                forall|j: int| 0 <= j < i ==> spec_parse_u32(#[trigger] ps[j]) is Some,
                set@ == Set::new(
                    |r: RefreshRate|
                        exists|j: int| 0 <= j < i && spec_parse_u32(#[trigger] ps[j]) == Some(r),
                ),
            decreases pieces@.len() - i,
        {
            assert(ps[i as int] == pieces@[i as int]@);
            match parse_u32_chars(pieces[i].as_slice()) {
                Some(r) => {
                    add_rate(&mut set, r);
                    assert(set@ =~= Set::new(
                        |x: RefreshRate|
                            exists|j: int| 0 <= j < i + 1 && spec_parse_u32(#[trigger] ps[j]) == Some(x),
                    )) by {
                        assert forall|x: RefreshRate| set@.contains(x) implies exists|j: int|
                            0 <= j < i + 1 && spec_parse_u32(#[trigger] ps[j]) == Some(x) by {
                            if x == r {
                                assert(spec_parse_u32(ps[i as int]) == Some(x));
                            }
                        }
                    }
                },
                None => {
                    assert(is_first_bad_piece(ps, i as int));
                    proof {
                        let k = choose|k: int| is_first_bad_piece(ps, k);
                        if k < i {
                            assert(spec_parse_u32(ps[k]) is Some);
                        } else if i < k {
                            assert(spec_parse_u32(ps[i as int]) is Some);
                        }
                    }
                    return Err(ModeParseError::InvalidRefreshRate(string_from_chars(pieces[i].as_slice())));
                },
            }
            i = i + 1;
        }
        assert(!exists|k: int| is_first_bad_piece(ps, k));
        let m = Mode { width, height, refresh_rates: sorted_rates(&set) };
        assert(m@.rates =~= parsed_rates(ps));
        Ok(m)
    }

    /// The text of this mode: `WxH`, or `WxH@R1/R2/...` with the refresh
    /// rates in increasing order.
    pub fn to_string(&self) -> (res: String)
        ensures
            ascending(self.rate_list()),
            self.rate_list().to_set() == self@.rates,
            res@ == render(self@.width, self@.height, self.rate_list()),
    {
        proof {
            use_type_invariant(self);
        }
        let mut out: Vec<char> = Vec::new();
        push_decimal(&mut out, self.width);
        out.push('x');
        push_decimal(&mut out, self.height);
        assert(out@ =~= decimal(self.width as nat).push('x') + decimal(self.height as nat));
        let n = self.refresh_rates.len();
        if n > 0 {
            out.push('@');
            let ghost head = out@;
            let mut i: usize = 0;
            while i < n
                invariant
                    n == self.refresh_rates@.len(),
                    0 < n,
                    i <= n,
                    i == 0 ==> out@ == head,
                    i > 0 ==> out@ == head + join_rates(self.refresh_rates@.take(i as int)),
                decreases n - i,
            {
                let ghost q = self.refresh_rates@.take(i + 1);
                if i > 0 {
                    out.push('/');
                }
                let ghost mid = out@;
                push_decimal(&mut out, self.refresh_rates[i]);
                proof {
                    assert(q.drop_last() =~= self.refresh_rates@.take(i as int));
                    assert(q.last() == self.refresh_rates@[i as int]);
                    if i == 0 {
                        assert(q.len() == 1);
                        assert(join_rates(q) == decimal(q[0] as nat));
                        assert(out@ =~= head + join_rates(q));
                    } else {
                        assert(join_rates(q) == join_rates(q.drop_last()).push('/') + decimal(
                            q.last() as nat,
                        ));
                        assert(out@ =~= head + join_rates(q));
                    }
                }
                i = i + 1;
            }
            assert(self.refresh_rates@.take(n as int) == self.refresh_rates@);
        }
        string_from_chars(out.as_slice())
    }

    /// The refresh rates of this mode in increasing order.
    pub closed spec fn rate_list(&self) -> Seq<RefreshRate> {
        self.refresh_rates@
    }
}

/// The values of a list of modes.
pub open spec fn values(ms: Seq<Mode>) -> Seq<ModeValue> {
    ms.map_values(|m: Mode| m@)
}

/// Whether two modes have the same resolution.
pub open spec fn same_res(a: ModeValue, b: ModeValue) -> bool {
    a.width == b.width && a.height == b.height
}

/// `i` is the first entry of `acc` with the resolution of `m`.
pub open spec fn is_first_res(acc: Seq<ModeValue>, m: ModeValue, i: int) -> bool {
    &&& 0 <= i < acc.len()
    &&& same_res(acc[i], m)
    &&& forall|j: int| 0 <= j < i ==> !same_res(#[trigger] acc[j], m)
}

/// Merges one mode into a list: its rates join those of the first entry
/// of the same resolution, or it is appended.
pub open spec fn merge_one(acc: Seq<ModeValue>, m: ModeValue) -> Seq<ModeValue> {
    if exists|i: int| is_first_res(acc, m, i) {
        let i = choose|i: int| is_first_res(acc, m, i);
        acc.update(i, ModeValue { rates: acc[i].rates.union(m.rates), ..acc[i] })
    } else {
        acc.push(m)
    }
}

/// The modes of a list merged by resolution, in order of first appearance.
pub open spec fn merge_spec(ms: Seq<ModeValue>) -> Seq<ModeValue>
    decreases ms.len(),
{
    if ms.len() == 0 {
        Seq::empty()
    } else {
        merge_one(merge_spec(ms.drop_last()), ms.last())
    }
}

/// What removing `r` from a list of modes gives: the modes are merged by
/// resolution; a mode without refresh rates removes its resolution, one
/// with rates removes those rates from it. It fails when the resolution,
/// or one of the rates, is not there.
pub open spec fn remove_spec(ms: Seq<ModeValue>, r: ModeValue) -> Option<Seq<ModeValue>> {
    let acc = merge_spec(ms);
    if exists|i: int| is_first_res(acc, r, i) {
        let i = choose|i: int| is_first_res(acc, r, i);
        if r.rates.is_empty() {
            Some(acc.remove(i))
        } else if r.rates.subset_of(acc[i].rates) {
            Some(acc.update(i, ModeValue { rates: acc[i].rates.difference(r.rates), ..acc[i] }))
        } else {
            None
        }
    } else {
        None
    }
}

/// A mode to remove was not found; the text reads `mode M not found`.
#[derive(Debug)]
pub struct ModeNotFound(pub String);

/// The text of a mode that was not found.
pub open spec fn not_found_text(m: Seq<char>) -> Seq<char> {
    "mode "@ + m + " not found"@
}

/// The error for a mode that was not found.
fn mode_not_found(m: &Mode) -> (e: ModeNotFound)
    ensures
        e.0@ == not_found_text(render(m@.width, m@.height, m.rate_list())),
{
    let text = m.to_string();
    let mut out: Vec<char> = Vec::new();
    push_str(&mut out, "mode ");
    push_str(&mut out, text.as_str());
    push_str(&mut out, " not found");
    ModeNotFound(string_from_chars(out.as_slice()))
}

proof fn lemma_values_push(s: Seq<Mode>, m: Mode)
    ensures
        values(s.push(m)) == values(s).push(m@),
{
    assert(values(s.push(m)) =~= values(s).push(m@));
}

/// Position of the first mode with the resolution of `m`.
fn position_of_res(acc: &Vec<Mode>, m: &Mode) -> (res: Option<usize>)
    ensures
        match res {
            Some(i) => is_first_res(values(acc@), m@, i as int),
            None => !exists|i: int| is_first_res(values(acc@), m@, i),
        },
{
    let ghost a = values(acc@);
    let mut i: usize = 0;
    while i < acc.len()
        invariant
            a == values(acc@),
            i <= acc@.len(),
            forall|j: int| 0 <= j < i ==> !same_res(#[trigger] a[j], m@),
        decreases acc@.len() - i,
    {
        if acc[i].width() == m.width() && acc[i].height() == m.height() {
            return Some(i);
        }
        i = i + 1;
    }
    assert forall|k: int| !is_first_res(a, m@, k) by {
        if is_first_res(a, m@, k) {
            assert(!same_res(a[k], m@));
        }
    }
    None
}

/// The mode of `a`'s resolution with the rates of both.
fn union_modes(a: &Mode, b: &Mode) -> (res: Mode)
    ensures
        res@ == (ModeValue { rates: a@.rates.union(b@.rates), ..a@ }),
{
    proof {
        use_type_invariant(a);
        use_type_invariant(b);
    }
    let mut set = rate_set_of(a.refresh_rates.as_slice());
    let br = &b.refresh_rates;
    assert(br@.take(0).to_set() =~= Set::<RefreshRate>::empty());
    assert(a@.rates.union(Set::<RefreshRate>::empty()) =~= a@.rates);
    for i in 0..br.len()
        invariant
            set@ == a@.rates.union(br@.take(i as int).to_set()),
    {
        add_rate(&mut set, br[i]);
        proof {
            assert(br@.take(i + 1) == br@.take(i as int).push(br@[i as int]));
            lemma_push_to_set(br@.take(i as int), br@[i as int]);
            assert(set@ =~= a@.rates.union(br@.take(i + 1).to_set()));
        }
    }
    assert(br@.take(br.len() as int) == br@);
    Mode { width: a.width, height: a.height, refresh_rates: sorted_rates(&set) }
}

/// The mode of `a`'s resolution with the rates of `a` that `b` lacks.
fn difference_modes(a: &Mode, b: &Mode) -> (res: Mode)
    ensures
        res@ == (ModeValue { rates: a@.rates.difference(b@.rates), ..a@ }),
{
    proof {
        use_type_invariant(a);
        use_type_invariant(b);
    }
    let mut set = rate_set_of(a.refresh_rates.as_slice());
    let br = &b.refresh_rates;
    assert(br@.take(0).to_set() =~= Set::<RefreshRate>::empty());
    assert(a@.rates.difference(Set::<RefreshRate>::empty()) =~= a@.rates);
    for i in 0..br.len()
        invariant
            set@ == a@.rates.difference(br@.take(i as int).to_set()),
    {
        let _ = remove_rate(&mut set, br[i]);
        proof {
            assert(br@.take(i + 1) == br@.take(i as int).push(br@[i as int]));
            lemma_push_to_set(br@.take(i as int), br@[i as int]);
            assert(set@ =~= a@.rates.difference(br@.take(i + 1).to_set()));
        }
    }
    assert(br@.take(br.len() as int) == br@);
    Mode { width: a.width, height: a.height, refresh_rates: sorted_rates(&set) }
}

/// Whether a list of rates holds `x`.
fn contains_rate(v: &[RefreshRate], x: RefreshRate) -> (res: bool)
    ensures
        res == v@.contains(x),
        res == v@.to_set().contains(x),
{
    let mut i: usize = 0;
    while i < v.len()
        invariant
            i <= v@.len(),
            forall|j: int| 0 <= j < i ==> v@[j] != x,
        decreases v@.len() - i,
    {
        if v[i] == x {
            assert(v@[i as int] == x);
            return true;
        }
        i = i + 1;
    }
    false
}

/// Merges modes by resolution: each resolution appears once, in order of
/// first appearance, with the union of the refresh rates given for it.
pub fn merge(modes: Vec<Mode>) -> (res: Vec<Mode>)
    ensures
        values(res@) == merge_spec(values(modes@)),
{
    let ghost ms = values(modes@);
    let mut acc: Vec<Mode> = Vec::new();
    for m in it: modes
        invariant
            it.seq() == modes@,
            ms == values(modes@),
            values(acc@) == merge_spec(ms.take(it.index() as int)),
    {
        let ghost k = it.index() as int;
        proof {
            assert(ms.take(k + 1).drop_last() =~= ms.take(k));
            assert(ms.take(k + 1).last() == m@);
        }
        let ghost a = values(acc@);
        match position_of_res(&acc, &m) {
            Some(i) => {
                proof {
                    let q = choose|q: int| is_first_res(a, m@, q);
                    if q < i {
                        assert(!same_res(a[q], m@));
                    } else if i < q {
                        assert(!same_res(a[i as int], m@));
                    }
                }
                let u = union_modes(&acc[i], &m);
                let ghost before = acc@;
                acc.set(i, u);
                assert(values(acc@) =~= merge_one(a, m@));
            },
            None => {
                let ghost before = acc@;
                acc.push(m);
                proof {
                    lemma_values_push(before, m);
                }
            },
        }
    }
    assert(ms.take(ms.len() as int) == ms);
    acc
}

#[verifier::loop_isolation(false)]
/// Removes a mode from a list of modes merged by resolution: a mode without
/// refresh rates removes its whole resolution, one with rates removes those
/// rates. Fails when the resolution or one of the rates is missing.
pub fn remove(modes: Vec<Mode>, remove_mode: &Mode) -> (res: Result<Vec<Mode>, ModeNotFound>)
    ensures
        match res {
            Ok(v) => remove_spec(values(modes@), remove_mode@) == Some(values(v@)),
            Err(e) => remove_spec(values(modes@), remove_mode@) is None && e.0@ == not_found_text(render(
                remove_mode@.width,
                remove_mode@.height,
                remove_mode.rate_list(),
            )),
        },
{
    let mut acc = merge(modes);
    let ghost a = values(acc@);
    match position_of_res(&acc, remove_mode) {
        Some(i) => {
            proof {
                let q = choose|q: int| is_first_res(a, remove_mode@, q);
                if q < i {
                    assert(!same_res(a[q], remove_mode@));
                } else if i < q {
                    assert(!same_res(a[i as int], remove_mode@));
                }
            }
            let rates = remove_mode.refresh_rates();
            if rates.len() == 0 {
                assert(remove_mode@.rates =~= Set::<RefreshRate>::empty());
                let _ = acc.remove(i);
                assert(values(acc@) =~= a.remove(i as int));
                return Ok(acc);
            }
            assert(remove_mode@.rates.contains(rates@[0]));
            let entry = acc[i].refresh_rates();
            let mut j: usize = 0;
            while j < rates.len()
                invariant
                    j <= rates@.len(),
                    forall|k: int| 0 <= k < j ==> entry@.to_set().contains(#[trigger] rates@[k]),
                decreases rates@.len() - j,
            {
                if !contains_rate(entry, rates[j]) {
                    assert(remove_mode@.rates.contains(rates@[j as int]));
                    assert(!remove_mode@.rates.subset_of(a[i as int].rates));
                    return Err(mode_not_found(remove_mode));
                }
                j = j + 1;
            }
            assert(remove_mode@.rates.subset_of(a[i as int].rates)) by {
                assert forall|x: RefreshRate| remove_mode@.rates.contains(x) implies a[i as int].rates.contains(x) by {
                    let k = choose|k: int| 0 <= k < rates@.len() && rates@[k] == x;
                    assert(entry@.to_set().contains(rates@[k]));
                }
            }
            let d = difference_modes(&acc[i], remove_mode);
            acc.set(i, d);
            assert(values(acc@) =~= a.update(
                i as int,
                ModeValue { rates: a[i as int].rates.difference(remove_mode@.rates), ..a[i as int] },
            ));
            Ok(acc)
        },
        None => Err(mode_not_found(remove_mode)),
    }
}

/// The union of the refresh rates that a list gives for resolution `w`x`h`.
pub open spec fn rates_for(ms: Seq<ModeValue>, w: Dimen, h: Dimen) -> Set<RefreshRate>
    decreases ms.len(),
{
    if ms.len() == 0 {
        Set::empty()
    } else if ms.last().width == w && ms.last().height == h {
        rates_for(ms.drop_last(), w, h).union(ms.last().rates)
    } else {
        rates_for(ms.drop_last(), w, h)
    }
}

/// A list without resolution `w`x`h` gives it no refresh rate.
proof fn lemma_rates_for_absent(ms: Seq<ModeValue>, w: Dimen, h: Dimen)
    requires
        forall|j: int| 0 <= j < ms.len() ==> !((#[trigger] ms[j]).width == w && ms[j].height == h),
    ensures
        rates_for(ms, w, h) == Set::<RefreshRate>::empty(),
    decreases ms.len(),
{
    if ms.len() > 0 {
        assert(ms.last() == ms[ms.len() - 1]);
        lemma_rates_for_absent(ms.drop_last(), w, h);
    }
}

/// Merging modes gives each resolution once, with the union of all the
/// refresh rates given for it, and keeps every resolution given.
pub proof fn law_merge(ms: Seq<ModeValue>)
    ensures
        forall|i: int, j: int|
            0 <= i < j < merge_spec(ms).len() ==> !same_res(
                #[trigger] merge_spec(ms)[i],
                #[trigger] merge_spec(ms)[j],
            ),
        forall|i: int|
            0 <= i < merge_spec(ms).len() ==> (#[trigger] merge_spec(ms)[i]).rates == rates_for(
                ms,
                merge_spec(ms)[i].width,
                merge_spec(ms)[i].height,
            ),
        forall|j: int|
            #![trigger ms[j]]
            0 <= j < ms.len() ==> exists|i: int|
                0 <= i < merge_spec(ms).len() && same_res(#[trigger] merge_spec(ms)[i], ms[j]),
    decreases ms.len(),
{
    if ms.len() > 0 {
        let t = ms.drop_last();
        let m = ms.last();
        law_merge(t);
        let r = merge_spec(t);
        let r2 = merge_spec(ms);
        assert(r2 == merge_one(r, m));
        if exists|i: int| is_first_res(r, m, i) {
            let i = choose|i: int| is_first_res(r, m, i);
            assert(r2 == r.update(i, ModeValue { rates: r[i].rates.union(m.rates), ..r[i] }));
            assert forall|a: int, b: int| 0 <= a < b < r2.len() implies !same_res(
                #[trigger] r2[a],
                #[trigger] r2[b],
            ) by {
                assert(same_res(r2[a], r[a]) && same_res(r2[b], r[b]));
            }
            assert forall|a: int| 0 <= a < r2.len() implies (#[trigger] r2[a]).rates == rates_for(
                ms,
                r2[a].width,
                r2[a].height,
            ) by {
                if a != i {
                    assert(r2[a] == r[a]);
                    if same_res(r[a], m) {
                        if a < i {
                            assert(!same_res(r[a], m));
                        } else {
                            assert(!same_res(r[i], r[a]));
                        }
                    }
                }
            }
            assert forall|j: int| #![trigger ms[j]] 0 <= j < ms.len() implies exists|a: int|
                0 <= a < r2.len() && same_res(#[trigger] r2[a], ms[j]) by {
                if j == ms.len() - 1 {
                    assert(same_res(r2[i], ms[j]));
                } else {
                    assert(ms[j] == t[j]);
                    let a = choose|a: int| 0 <= a < r.len() && same_res(#[trigger] r[a], t[j]);
                    assert(same_res(r2[a], ms[j]));
                }
            }
        } else {
            assert forall|a: int| 0 <= a < r.len() implies !same_res(#[trigger] r[a], m) by {
                if same_res(r[a], m) {
                    assert(is_first_res(r, m, a)) by {
                        assert forall|k: int| 0 <= k < a implies !same_res(#[trigger] r[k], m) by {
                            if same_res(r[k], m) {
                                assert(!same_res(r[k], r[a]));
                            }
                        }
                    }
                }
            }
            assert(r2 == r.push(m));
            assert forall|j: int| 0 <= j < t.len() implies !((#[trigger] t[j]).width == m.width
                && t[j].height == m.height) by {
                let a = choose|a: int| 0 <= a < r.len() && same_res(#[trigger] r[a], t[j]);
                if t[j].width == m.width && t[j].height == m.height {
                    assert(same_res(r[a], m));
                }
            }
            lemma_rates_for_absent(t, m.width, m.height);
            assert(Set::<RefreshRate>::empty().union(m.rates) =~= m.rates);
            assert forall|a: int, b: int| 0 <= a < b < r2.len() implies !same_res(
                #[trigger] r2[a],
                #[trigger] r2[b],
            ) by {
                if b == r.len() {
                    assert(r2[a] == r[a]);
                } else {
                    assert(r2[a] == r[a] && r2[b] == r[b]);
                }
            }
            assert forall|a: int| 0 <= a < r2.len() implies (#[trigger] r2[a]).rates == rates_for(
                ms,
                r2[a].width,
                r2[a].height,
            ) by {
                if a < r.len() {
                    assert(r2[a] == r[a]);
                }
            }
            assert forall|j: int| #![trigger ms[j]] 0 <= j < ms.len() implies exists|a: int|
                0 <= a < r2.len() && same_res(#[trigger] r2[a], ms[j]) by {
                if j == ms.len() - 1 {
                    assert(same_res(r2[r.len() as int], ms[j]));
                } else {
                    assert(ms[j] == t[j]);
                    let a = choose|a: int| 0 <= a < r.len() && same_res(#[trigger] r[a], t[j]);
                    assert(same_res(r2[a], ms[j]));
                }
            }
        }
    }
}

/// Digits contain no `@`, `x` or `/`.
proof fn lemma_decimal_plain(n: nat)
    ensures
        !decimal(n).contains('@'),
        !decimal(n).contains('x'),
        !decimal(n).contains('/'),
{
    lemma_decimal_digits(n);
    let d = decimal(n);
    assert(all_digits(d));
    if d.contains('@') {
        let k = choose|k: int| 0 <= k < d.len() && d[k] == '@';
        assert(crate::text::is_digit(d[k]));
    }
    if d.contains('x') {
        let k = choose|k: int| 0 <= k < d.len() && d[k] == 'x';
        assert(crate::text::is_digit(d[k]));
    }
    if d.contains('/') {
        let k = choose|k: int| 0 <= k < d.len() && d[k] == '/';
        assert(crate::text::is_digit(d[k]));
    }
}

/// The pieces of a joined list of rates are the rates in decimal.
proof fn lemma_split_join(q: Seq<RefreshRate>)
    requires
        q.len() > 0,
    ensures
        split_on(join_rates(q), '/') == q.map_values(|r: RefreshRate| decimal(r as nat)),
    decreases q.len(),
{
    let last = decimal(q.last() as nat);
    lemma_decimal_plain(q.last() as nat);
    lemma_split_no_sep(last, '/');
    if q.len() == 1 {
        assert(q.last() == q[0]);
        assert(split_on(join_rates(q), '/') =~= q.map_values(|r: RefreshRate| decimal(r as nat)));
    } else {
        lemma_split_join(q.drop_last());
        lemma_split_around(join_rates(q.drop_last()), last, '/');
        assert(split_on(join_rates(q), '/') =~= q.map_values(|r: RefreshRate| decimal(r as nat)));
    }
}

/// `p` does not contain `c` in the positions before `i`, and has it at `i`.
proof fn lemma_first_at(s: Seq<char>, c: char, i: int)
    requires
        0 <= i < s.len(),
        s[i] == c,
        !s.take(i).contains(c),
    ensures
        split_once(s, c) == Some((s.take(i), s.skip(i + 1))),
{
    assert(is_first_index(s, c, i)) by {
        assert forall|j: int| 0 <= j < i implies s[j] != c by {
            if s[j] == c {
                assert(s.take(i)[j] == c);
            }
        }
    }
    let k = choose|k: int| is_first_index(s, c, k);
    lemma_first_index_unique(s, c, i, k);
}

/// Parsing the text of a mode gives the mode back: writing a mode and
/// reading it again is the identity.
pub proof fn law_parse_render(w: Dimen, h: Dimen, q: Seq<RefreshRate>)
    ensures
        spec_parse_mode(render(w, h, q)) == Ok::<ModeValue, ModeParseFailure>(
            ModeValue { width: w, height: h, rates: q.to_set() },
        ),
{
    let dw = decimal(w as nat);
    let dh = decimal(h as nat);
    lemma_decimal_plain(w as nat);
    lemma_decimal_plain(h as nat);
    lemma_parse_decimal(w);
    lemma_parse_decimal(h);
    let resolution = dw.push('x') + dh;
    assert(!resolution.contains('@')) by {
        if resolution.contains('@') {
            let k = choose|k: int| 0 <= k < resolution.len() && resolution[k] == '@';
            if k < dw.len() {
                assert(dw[k] == '@');
            } else if k > dw.len() {
                assert(dh[k - dw.len() - 1] == '@');
            }
        }
    }
    assert(resolution.take(dw.len() as int) =~= dw);
    assert(resolution.skip(dw.len() as int + 1) =~= dh);
    assert(resolution[dw.len() as int] == 'x');
    lemma_first_at(resolution, 'x', dw.len() as int);
    let s = render(w, h, q);
    if q.len() == 0 {
        assert(forall|i: int| !is_first_index(s, '@', i)) by {
            assert forall|i: int| !is_first_index(s, '@', i) by {
                if is_first_index(s, '@', i) {
                    assert(resolution.contains('@'));
                }
            }
        }
        assert(q.to_set() =~= Set::<RefreshRate>::empty());
    } else {
        let list = join_rates(q);
        assert(s == resolution.push('@') + list);
        assert(s.take(resolution.len() as int) =~= resolution);
        assert(s.skip(resolution.len() as int + 1) =~= list);
        assert(s[resolution.len() as int] == '@');
        lemma_first_at(s, '@', resolution.len() as int);
        lemma_split_join(q);
        let ps = split_on(list, '/');
        assert forall|i: int| 0 <= i < ps.len() implies spec_parse_u32(#[trigger] ps[i]) == Some(
            q[i],
        ) by {
            lemma_parse_decimal(q[i]);
        }
        assert(!exists|i: int| is_first_bad_piece(ps, i));
        assert(parsed_rates(ps) =~= q.to_set()) by {
            assert forall|r: RefreshRate| parsed_rates(ps).contains(r) implies q.to_set().contains(
                r,
            ) by {
                let i = choose|i: int| 0 <= i < ps.len() && spec_parse_u32(#[trigger] ps[i]) == Some(r);
                assert(q[i] == r);
            }
            assert forall|r: RefreshRate| q.to_set().contains(r) implies parsed_rates(ps).contains(
                r,
            ) by {
                let i = choose|i: int| 0 <= i < q.len() && q[i] == r;
                assert(spec_parse_u32(ps[i]) == Some(r));
            }
        }
    }
}

} // verus!
