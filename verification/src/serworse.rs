//! Like serde, but worse: the launcher's tiny comma-separated persistence
//! format, one `key,value` pair per line, and the ordered string-keyed map
//! it loads into.

use vstd::prelude::*;

use crate::text::push_char;
use crate::text::str_eq;

verus! {

#[derive(Debug)]
pub enum ParseError {
    MissingSeperator,
    IntoFailure,
}

/// An ordered map with unique string keys, kept as a vector of pairs in
/// first-insertion order.
#[derive(Debug)]
pub struct KvMap<T: View> {
    pairs: Vec<(String, T)>,
}

impl<T: View> View for KvMap<T> {
    type V = Seq<(Seq<char>, T::V)>;

    closed spec fn view(&self) -> Seq<(Seq<char>, T::V)> {
        self.pairs@.map_values(|p: (String, T)| (p.0@, p.1@))
    }
}

/// First position holding `key`, or the length when no entry does.
pub open spec fn spec_key_idx<TV>(s: Seq<(Seq<char>, TV)>, key: Seq<char>) -> int
    decreases s.len(),
{
    if s.len() == 0 {
        0
    } else if s[0].0 == key {
        0
    } else {
        1 + spec_key_idx(s.drop_first(), key)
    }
}

/// The value stored under `key`, if any.
pub open spec fn spec_get<TV>(s: Seq<(Seq<char>, TV)>, key: Seq<char>) -> Option<TV> {
    if spec_key_idx(s, key) < s.len() {
        Some(s[spec_key_idx(s, key)].1)
    } else {
        None
    }
}

/// Insertion: overwrites in place when the key is present, appends otherwise.
pub open spec fn spec_insert<TV>(s: Seq<(Seq<char>, TV)>, key: Seq<char>, value: TV) -> Seq<
    (Seq<char>, TV),
> {
    if spec_key_idx(s, key) < s.len() {
        s.update(spec_key_idx(s, key), (key, value))
    } else {
        s.push((key, value))
    }
}

proof fn lemma_key_idx<TV>(s: Seq<(Seq<char>, TV)>, key: Seq<char>)
    ensures
        0 <= spec_key_idx(s, key) <= s.len(),
        spec_key_idx(s, key) < s.len() ==> s[spec_key_idx(s, key)].0 == key,
        forall|t: int| 0 <= t < spec_key_idx(s, key) ==> (#[trigger] s[t]).0 != key,
        spec_key_idx(s, key) == s.len() ==> forall|t: int|
            0 <= t < s.len() ==> (#[trigger] s[t]).0 != key,
    decreases s.len(),
{
    if s.len() == 0 {
    } else if s[0].0 == key {
    } else {
        lemma_key_idx(s.drop_first(), key);
        assert forall|t: int| 0 <= t < spec_key_idx(s, key) implies (#[trigger] s[t]).0 != key by {
            if t > 0 {
                assert(s.drop_first()[t - 1] == s[t]);
                assert(s.drop_first()[t - 1].0 != key);
            }
        }
        if spec_key_idx(s, key) == s.len() {
            assert forall|t: int| 0 <= t < s.len() implies (#[trigger] s[t]).0 != key by {
                if t > 0 {
                    assert(s.drop_first()[t - 1] == s[t]);
                    assert(s.drop_first()[t - 1].0 != key);
                }
            }
        }
    }
}

/// The first index carrying `key` is the one found by a left-to-right scan.
proof fn lemma_key_idx_is<TV>(s: Seq<(Seq<char>, TV)>, key: Seq<char>, i: int)
    requires
        0 <= i < s.len(),
        s[i].0 == key,
        forall|t: int| 0 <= t < i ==> (#[trigger] s[t]).0 != key,
    ensures
        spec_key_idx(s, key) == i,
{
    lemma_key_idx(s, key);
    let idx = spec_key_idx(s, key);
    if idx < i {
        assert(s[idx].0 != key);
    }
    if i < idx {
        assert(s[i].0 != key);
    }
}

impl<T: View> KvMap<T> {
    /// Keys are pairwise distinct.
    pub open spec fn wf(&self) -> bool {
        forall|i: int, j: int|
            0 <= i < j < self@.len() ==> (#[trigger] self@[i]).0 != (#[trigger] self@[j]).0
    }

    /// An empty map.
    pub fn new() -> (r: KvMap<T>)
        ensures
            r@ == Seq::<(Seq<char>, T::V)>::empty(),
            r.wf(),
    {
        let r = KvMap { pairs: Vec::new() };
        proof {
            assert(r@ =~= Seq::<(Seq<char>, T::V)>::empty());
        }
        r
    }

    pub fn len(&self) -> (n: usize)
        ensures
            n == self@.len(),
    {
        self.pairs.len()
    }

    /// Looks a key up.
    pub fn get(&self, key: &str) -> (r: Option<&T>)
        ensures
            match r {
                Some(v) => spec_get(self@, key@) == Some(v@),
                None => spec_get(self@, key@) is None,
            },
    {
        proof {
            lemma_key_idx(self@, key@);
        }
        let n = self.pairs.len();
        let mut i: usize = 0;
        while i < n
            invariant
                i <= n,
                n == self@.len(),
                self@.len() == self.pairs@.len(),
                forall|t: int| 0 <= t < self@.len() ==> #[trigger] self@[t] == (
                self.pairs@[t].0@,
                self.pairs@[t].1@,
                ),
                forall|t: int| 0 <= t < i ==> (#[trigger] self@[t]).0 != key@,
            decreases n - i,
        {
            let p = &self.pairs[i];
            if str_eq(p.0.as_str(), key) {
                proof {
                    lemma_key_idx_is(self@, key@, i as int);
                }
                return Some(&self.pairs[i].1);
            }
            i += 1;
        }
        proof {
            lemma_key_idx(self@, key@);
        }
        None
    }

    /// Stores `value` under `key`, replacing any earlier entry for it.
    pub fn insert(&mut self, key: String, value: T)
        requires
            old(self).wf(),
        ensures
            final(self)@ == spec_insert(old(self)@, key@, value@),
            final(self).wf(),
    {
        proof {
            lemma_key_idx(self@, key@);
        }
        let n = self.pairs.len();
        let mut i: usize = 0;
        while i < n
            invariant
                i <= n,
                n == self@.len(),
                self.wf(),
                self == old(self),
                self@.len() == self.pairs@.len(),
                forall|t: int| 0 <= t < self@.len() ==> #[trigger] self@[t] == (
                self.pairs@[t].0@,
                self.pairs@[t].1@,
                ),
                forall|t: int| 0 <= t < i ==> (#[trigger] self@[t]).0 != key@,
            decreases n - i,
        {
            let found = str_eq(self.pairs[i].0.as_str(), key.as_str());
            if found {
                proof {
                    lemma_key_idx_is(self@, key@, i as int);
                }
                self.pairs.set(i, (key, value));
                proof {
                    assert(self@ =~= spec_insert(old(self)@, key@, value@));
                    assert forall|a: int, b: int| 0 <= a < b < self@.len() implies (
                    #[trigger] self@[a]).0 != (#[trigger] self@[b]).0 by {
                        assert(old(self)@[a].0 != old(self)@[b].0);
                        if a != i {
                            assert(self@[a] == old(self)@[a]);
                        }
                        if b != i {
                            assert(self@[b] == old(self)@[b]);
                        }
                    }
                }
                return ;
            }
            i += 1;
        }
        proof {
            lemma_key_idx(self@, key@);
            assert(spec_key_idx(self@, key@) == self@.len());
        }
        self.pairs.push((key, value));
        proof {
            assert(self@ =~= old(self)@.push((key@, value@)));
        }
    }
}

/// A decimal digit.
pub open spec fn dec_digit(c: char) -> bool {
    48 <= c as u32 <= 57
}

/// The value of a string of decimal digits.
pub open spec fn spec_dec_val(s: Seq<char>) -> int
    decreases s.len(),
{
    if s.len() == 0 {
        0
    } else {
        spec_dec_val(s.drop_last()) * 10 + (s.last() as u32 - 48)
    }
}

pub open spec fn spec_all_digits(s: Seq<char>) -> bool {
    forall|t: int| 0 <= t < s.len() ==> dec_digit(#[trigger] s[t])
}

/// What `u32` parsing accepts: an optional leading plus sign, then at
/// least one digit, denoting a value within range.
pub open spec fn spec_parse_u32(s: Seq<char>) -> Option<u32> {
    let body = if s.len() > 0 && s[0] == '+' {
        s.drop_first()
    } else {
        s
    };
    if body.len() > 0 && spec_all_digits(body) && spec_dec_val(body) <= u32::MAX {
        Some(spec_dec_val(body) as u32)
    } else {
        None
    }
}

proof fn lemma_dec_val_nonneg(s: Seq<char>)
    requires
        spec_all_digits(s),
    ensures
        spec_dec_val(s) >= 0,
    decreases s.len(),
{
    if s.len() > 0 {
        assert(spec_all_digits(s.drop_last()));
        lemma_dec_val_nonneg(s.drop_last());
    }
}

/// Appending digits never lowers the value.
proof fn lemma_dec_val_prefix(s: Seq<char>, i: int)
    requires
        spec_all_digits(s),
        0 <= i <= s.len(),
    ensures
        spec_dec_val(s) >= spec_dec_val(s.take(i)),
    decreases s.len() - i,
{
    if i < s.len() {
        lemma_dec_val_prefix(s, i + 1);
        assert(s.take(i + 1).drop_last() =~= s.take(i));
        assert(spec_all_digits(s.take(i)));
        lemma_dec_val_nonneg(s.take(i));
    } else {
        assert(s.take(i) =~= s);
    }
}

/// Parses an unsigned decimal the way `u32` parsing accepts it.
fn parse_u32(s: &str) -> (r: Option<u32>)
    ensures
        r == spec_parse_u32(s@),
{
    let ghost whole = s@;
    let n = s.unicode_len();
    let start: usize = if n > 0 && s.get_char(0) == '+' {
        1
    } else {
        0
    };
    let ghost body = if whole.len() > 0 && whole[0] == '+' {
        whole.drop_first()
    } else {
        whole
    };
    proof {
        assert(body =~= whole.subrange(start as int, n as int));
    }
    if start >= n {
        return None;
    }
    let mut acc: u64 = 0;
    let mut i: usize = start;
    while i < n
        invariant
            start <= i <= n,
            n == whole.len(),
            whole == s@,
            body == whole.subrange(start as int, n as int),
            body == (if whole.len() > 0 && whole[0] == '+' {
                whole.drop_first()
            } else {
                whole
            }),
            start <= 1,
            forall|t: int| start <= t < i ==> dec_digit(#[trigger] whole[t]),
            acc == spec_dec_val(whole.subrange(start as int, i as int)),
            acc <= u32::MAX,
        decreases n - i,
    {
        let c = s.get_char(i);
        let u = c as u32;
        if u < 48 || u > 57 {
            proof {
                assert(body[i - start] == whole[i as int]);
                assert(!dec_digit(body[i - start]));
                assert(!spec_all_digits(body));
                assert(spec_parse_u32(whole) is None);
            }
            return None;
        }
        let d = (u - 48) as u64;
        acc = acc * 10 + d;
        proof {
            assert(whole.subrange(start as int, i + 1 as int).drop_last() =~= whole.subrange(
                start as int,
                i as int,
            ));
            assert(whole.subrange(start as int, i + 1 as int).last() == whole[i as int]);
            assert(acc == spec_dec_val(whole.subrange(start as int, i + 1 as int)));
        }
        if acc > u32::MAX as u64 {
            proof {
                if spec_all_digits(body) {
                    lemma_dec_val_prefix(body, i + 1 - start);
                    assert(body.take(i + 1 - start) =~= whole.subrange(start as int, i + 1 as int));
                    assert(spec_dec_val(body) > u32::MAX);
                }
                assert(spec_parse_u32(whole) is None);
            }
            return None;
        }
        i += 1;
    }
    proof {
        assert(whole.subrange(start as int, n as int) =~= body);
        assert(forall|t: int| 0 <= t < body.len() ==> body[t] == whole[t + start]);
        assert(spec_all_digits(body));
    }
    Some(acc as u32)
}

/// The character of one decimal digit value.
pub open spec fn digit_char(d: int) -> char {
    ((48 + d) as u8) as char
}

/// The decimal rendering of a non-negative value.
pub open spec fn spec_u32_digits(v: int) -> Seq<char>
    decreases v,
{
    if v < 10 {
        seq![digit_char(v)]
    } else {
        spec_u32_digits(v / 10).push(digit_char(v % 10))
    }
}

fn u32_digits(v: u32) -> (r: String)
    ensures
        r@ == spec_u32_digits(v as int),
    decreases v,
{
    if v < 10 {
        let mut s = String::new();
        push_char(&mut s, ((48 + v) as u8) as char);
        proof {
            assert(s@ =~= seq![digit_char(v as int)]);
        }
        s
    } else {
        let mut s = u32_digits(v / 10);
        push_char(&mut s, ((48 + (v % 10)) as u8) as char);
        s
    }
}

/// A value that can live in the comma-separated store: parsed from the
/// text after the comma, rendered back to it.
pub trait CsvValue: Sized + View {
    /// The value a field denotes, if it parses.
    spec fn spec_parse(s: Seq<char>) -> Option<Self::V>;

    /// The rendering of a value.
    spec fn spec_render(v: Self::V) -> Seq<char>;

    fn parse_csv_value(s: &str) -> (r: Option<Self>)
        ensures
            match r {
                Some(v) => Self::spec_parse(s@) == Some(v@),
                None => Self::spec_parse(s@) is None,
            },
    ;

    fn render_csv_value(&self) -> (r: String)
        ensures
            r@ == Self::spec_render(self@),
    ;
}

impl CsvValue for u32 {
    open spec fn spec_parse(s: Seq<char>) -> Option<u32> {
        spec_parse_u32(s)
    }

    open spec fn spec_render(v: u32) -> Seq<char> {
        spec_u32_digits(v as int)
    }

    fn parse_csv_value(s: &str) -> (r: Option<u32>) {
        parse_u32(s)
    }

    fn render_csv_value(&self) -> (r: String) {
        u32_digits(*self)
    }
}

impl CsvValue for String {
    open spec fn spec_parse(s: Seq<char>) -> Option<Seq<char>> {
        Some(s)
    }

    open spec fn spec_render(v: Seq<char>) -> Seq<char> {
        v
    }

    fn parse_csv_value(s: &str) -> (r: Option<String>) {
        Some(s.to_owned())
    }

    fn render_csv_value(&self) -> (r: String) {
        self.clone()
    }
}

/// First occurrence of `c` at or after `i`, or the length.
pub open spec fn find_char(s: Seq<char>, c: char, i: int) -> int
    decreases s.len() - i,
{
    if i < 0 || i >= s.len() {
        s.len() as int
    } else if s[i] == c {
        i
    } else {
        find_char(s, c, i + 1)
    }
}

proof fn lemma_find_char(s: Seq<char>, c: char, i: int)
    requires
        0 <= i <= s.len(),
    ensures
        i <= find_char(s, c, i) <= s.len(),
        find_char(s, c, i) < s.len() ==> s[find_char(s, c, i)] == c,
        forall|t: int| i <= t < find_char(s, c, i) ==> #[trigger] s[t] != c,
    decreases s.len() - i,
{
    if i < s.len() && s[i] != c {
        lemma_find_char(s, c, i + 1);
    }
}

pub proof fn lemma_find_char_is(s: Seq<char>, c: char, j: int)
    requires
        0 <= j <= s.len(),
        forall|t: int| 0 <= t < j ==> #[trigger] s[t] != c,
        j < s.len() ==> s[j] == c,
    ensures
        find_char(s, c, 0) == j,
{
    lemma_find_char(s, c, 0);
    let f = find_char(s, c, 0);
    if f < j {
        assert(s[f] != c);
    }
    if j < f {
        assert(s[j] != c);
    }
}

/// One line without its terminator, a trailing carriage return stripped.
pub open spec fn strip_cr(l: Seq<char>) -> Seq<char> {
    if l.len() > 0 && l.last() == '\r' {
        l.drop_last()
    } else {
        l
    }
}

/// The lines of a text, split at newlines, with no final empty line after
/// a trailing newline.
pub open spec fn spec_lines(s: Seq<char>) -> Seq<Seq<char>>
    decreases s.len(),
{
    if s.len() == 0 {
        Seq::empty()
    } else {
        let p = find_char(s, '\n', 0);
        if 0 <= p < s.len() {
            seq![strip_cr(s.take(p))] + spec_lines(s.skip(p + 1))
        } else {
            seq![strip_cr(s)]
        }
    }
}

/// The entries a comma-separated text denotes, folded over its lines: a
/// line without a comma is a missing-separator error; a field that does
/// not parse is a conversion error; a repeated key keeps the last value.
pub open spec fn spec_csv_entries<T: CsvValue>(
    ls: Seq<Seq<char>>,
    acc: Seq<(Seq<char>, T::V)>,
) -> Result<Seq<(Seq<char>, T::V)>, ParseError>
    decreases ls.len(),
{
    if ls.len() == 0 {
        Ok(acc)
    } else {
        let l = ls[0];
        let p = find_char(l, ',', 0);
        if 0 <= p < l.len() {
            match T::spec_parse(l.skip(p + 1)) {
                None => Err(ParseError::IntoFailure),
                Some(v) => spec_csv_entries::<T>(ls.drop_first(), spec_insert(acc, l.take(p), v)),
            }
        } else {
            Err(ParseError::MissingSeperator)
        }
    }
}

/// What parsing a whole comma-separated text yields.
pub open spec fn spec_parse_csv<T: CsvValue>(data: Seq<char>) -> Result<
    Seq<(Seq<char>, T::V)>,
    ParseError,
> {
    spec_csv_entries::<T>(spec_lines(data), Seq::empty())
}

/// Input data is a csv: one `key,value` per line.
pub fn parse_csv<T: CsvValue>(data: &str) -> (r: Result<KvMap<T>, ParseError>)
    ensures
        match r {
            Ok(m) => spec_parse_csv::<T>(data@) == Ok::<_, ParseError>(m@) && m.wf(),
            Err(e) => spec_parse_csv::<T>(data@) matches Err(pe) && e == pe,
        },
{
    let ghost whole = data@;
    let n = data.unicode_len();
    let mut map = KvMap::<T>::new();
    let mut pos: usize = 0;
    proof {
        assert(whole.skip(0) =~= whole);
    }
    while pos < n
        invariant
            pos <= n,
            n == whole.len(),
            whole == data@,
            map.wf(),
            spec_parse_csv::<T>(whole) == spec_csv_entries::<T>(
                spec_lines(whole.skip(pos as int)),
                map@,
            ),
        decreases n - pos,
    {
        let ghost rem = whole.skip(pos as int);
        // Find the end of the line.
        let mut j: usize = pos;
        while j < n && data.get_char(j) != '\n'
            invariant
                pos <= j <= n,
                n == whole.len(),
                whole == data@,
                forall|t: int| pos <= t < j ==> #[trigger] whole[t] != '\n',
            decreases n - j,
        {
            j += 1;
        }
        proof {
            assert(forall|t: int| 0 <= t < j - pos ==> #[trigger] rem[t] != '\n');
            if j < n {
                assert(rem[j - pos] == '\n');
            }
            lemma_find_char_is(rem, '\n', j - pos);
        }
        let line_end: usize = if j > pos && data.get_char(j - 1) == '\r' {
            j - 1
        } else {
            j
        };
        let ghost line = strip_cr(rem.take(j - pos));
        proof {
            assert(rem.take(j - pos) =~= whole.subrange(pos as int, j as int));
            if j > pos && whole[j - 1] == '\r' {
                assert(rem.take(j - pos).last() == '\r');
                assert(line =~= whole.subrange(pos as int, line_end as int));
            } else {
                assert(line =~= whole.subrange(pos as int, line_end as int));
            }
        }
        // Find the comma.
        let mut k: usize = pos;
        while k < line_end && data.get_char(k) != ','
            invariant
                pos <= k <= line_end,
                line_end <= n,
                n == whole.len(),
                whole == data@,
                forall|t: int| pos <= t < k ==> #[trigger] whole[t] != ',',
            decreases line_end - k,
        {
            k += 1;
        }
        proof {
            assert(forall|t: int| 0 <= t < k - pos ==> #[trigger] line[t] != ',');
            if k < line_end {
                assert(line[k - pos] == ',');
            }
            lemma_find_char_is(line, ',', k - pos);
        }
        if k >= line_end {
            return Err(ParseError::MissingSeperator);
        }
        let valstr = data.substring_char(k + 1, line_end);
        proof {
            assert(line.skip(k - pos + 1) =~= valstr@);
        }
        match T::parse_csv_value(valstr) {
            None => {
                return Err(ParseError::IntoFailure);
            },
            Some(v) => {
                let key = data.substring_char(pos, k);
                proof {
                    assert(line.take(k - pos) =~= key@);
                }
                map.insert(key.to_owned(), v);
            },
        }
        let newpos: usize = if j < n {
            j + 1
        } else {
            n
        };
        proof {
            if j < n {
                assert(rem.skip(j - pos + 1) =~= whole.skip(newpos as int));
                assert(spec_lines(rem) == seq![line] + spec_lines(whole.skip(newpos as int)));
            } else {
                assert(whole.skip(newpos as int) =~= Seq::<char>::empty());
                assert(spec_lines(rem) == seq![line]);
                assert(seq![line] =~= seq![line] + spec_lines(whole.skip(newpos as int)));
            }
            assert((seq![line] + spec_lines(whole.skip(newpos as int))).drop_first() =~= spec_lines(
                whole.skip(newpos as int),
            ));
        }
        pos = newpos;
    }
    proof {
        assert(whole.skip(n as int) =~= Seq::<char>::empty());
    }
    Ok(map)
}

/// The comma-separated rendering of the entries, in map order.
pub open spec fn spec_csv_of<T: CsvValue>(s: Seq<(Seq<char>, T::V)>) -> Seq<char>
    decreases s.len(),
{
    if s.len() == 0 {
        Seq::empty()
    } else {
        s[0].0 + ","@ + T::spec_render(s[0].1) + "\n"@ + spec_csv_of::<T>(s.drop_first())
    }
}

/// Invere function of parse_csv: renders the map back to its text, one
/// entry per line in map order.
pub fn hash_map_to_csv<T: CsvValue>(map: &KvMap<T>) -> (r: String)
    ensures
        r@ == spec_csv_of::<T>(map@),
{
    let mut out = String::new();
    let n = map.len();
    let mut i: usize = 0;
    proof {
        assert(map@.skip(0) =~= map@);
        assert(out@ + spec_csv_of::<T>(map@) =~= spec_csv_of::<T>(map@));
    }
    while i < n
        invariant
            i <= n,
            n == map@.len(),
            map@.len() == map.pairs@.len(),
            forall|t: int| 0 <= t < map@.len() ==> #[trigger] map@[t] == (
            map.pairs@[t].0@,
            map.pairs@[t].1@,
            ),
            spec_csv_of::<T>(map@) == out@ + spec_csv_of::<T>(map@.skip(i as int)),
        decreases n - i,
    {
        let p = &map.pairs[i];
        out.append(p.0.as_str());
        out.append(",");
        let rendered = p.1.render_csv_value();
        out.append(rendered.as_str());
        out.append("\n");
        proof {
            assert(map@.skip(i as int)[0] == map@[i as int]);
            assert(map@.skip(i as int).drop_first() =~= map@.skip(i + 1 as int));
        }
        i += 1;
    }
    proof {
        assert(map@.skip(n as int) =~= Seq::<(Seq<char>, T::V)>::empty());
    }
    out
}

} // verus!
