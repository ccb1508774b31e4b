//! Query strings: `key=value` pairs with `&` between them, percent-encoded, the values of
//! a repeated key gathered under its first occurrence.

use vstd::prelude::*;
use crate::percent::{
    append_encoded, decode_chars, percent_decoded, percent_encodable, percent_encoded,
};
use crate::text::{
    chars_of, free_of, free_of_char, join, occurs_at, one_char, plus_to_space, push_char,
    replace_plus, same_text, split, split_chars, string_of, texts,
};

verus! {

/// A key of a query string with the values given for it, in the order given.
#[derive(Debug)]
pub struct SearchParam(String, Vec<String>);

/// The parameters of a query string: one entry for each key, in the order in which the
/// keys first occur. No two entries share a key.
#[derive(Debug)]
pub struct SearchParams(Vec<SearchParam>);

/// The mathematical value of a `SearchParam`.
pub struct SearchParamView {
    pub name: Seq<char>,
    pub values: Seq<Seq<char>>,
}

/// The texts of a list of strings.
pub open spec fn string_views(strings: Seq<String>) -> Seq<Seq<char>> {
    strings.map_values(|s: String| s@)
}

/// The values of the entries of a list.
pub open spec fn param_views(params: Seq<SearchParam>) -> Seq<SearchParamView> {
    params.map_values(|p: SearchParam| p@)
}

impl View for SearchParam {
    type V = SearchParamView;

    closed spec fn view(&self) -> SearchParamView {
        SearchParamView { name: self.0@, values: string_views(self.1@) }
    }
}

impl View for SearchParams {
    type V = Seq<SearchParamView>;

    closed spec fn view(&self) -> Seq<SearchParamView> {
        param_views(self.0@)
    }
}

impl Clone for SearchParam {
    fn clone(&self) -> (r: Self)
        ensures
            r@ == self@,
    {
        let mut values: Vec<String> = Vec::new();
        let mut i: usize = 0;
        while i < self.1.len()
            invariant
                i <= self.1.len(),
                string_views(values@) == string_views(self.1@).take(i as int),
            decreases self.1.len() - i,
        {
            let value = self.1[i].clone();
            proof {
                let all = string_views(self.1@);
                assert(all.take(i + 1) == all.take(i as int).push(all[i as int]));
                assert(string_views(values@.push(value)) == string_views(values@).push(value@));
            }
            values.push(value);
            i += 1;
        }
        assert(string_views(self.1@).take(self.1.len() as int) == string_views(self.1@));
        SearchParam(self.0.clone(), values)
    }
}

impl Clone for SearchParams {
    fn clone(&self) -> (r: Self)
        ensures
            r@ == self@,
    {
        proof {
            use_type_invariant(self);
        }
        let mut list: Vec<SearchParam> = Vec::new();
        let mut i: usize = 0;
        while i < self.0.len()
            invariant
                i <= self.0.len(),
                param_views(list@) == param_views(self.0@).take(i as int),
            decreases self.0.len() - i,
        {
            let entry = self.0[i].clone();
            proof {
                let all = param_views(self.0@);
                assert(all.take(i + 1) == all.take(i as int).push(all[i as int]));
                assert(param_views(list@.push(entry)) == param_views(list@).push(entry@));
            }
            list.push(entry);
            i += 1;
        }
        assert(param_views(self.0@).take(self.0.len() as int) == param_views(self.0@));
        SearchParams(list)
    }
}

/// Whether no two entries share a key.
pub open spec fn distinct_keys(params: Seq<SearchParamView>) -> bool {
    forall|i: int, j: int|
        0 <= i < j < params.len() ==> (#[trigger] params[i]).name != (#[trigger] params[j]).name
}

/// The position of the entry for the key `name`: the first entry of that name.
pub open spec fn index_of_key(params: Seq<SearchParamView>, name: Seq<char>) -> Option<int>
    decreases params.len(),
{
    if params.len() == 0 {
        None
    } else {
        match index_of_key(params.drop_last(), name) {
            Some(i) => Some(i),
            None => if params.last().name == name {
                Some(params.len() - 1)
            } else {
                None
            },
        }
    }
}

/// The parameters with one more value for a key: added to the entry of the key where there
/// is one, in a new entry at the end otherwise.
pub open spec fn with_value(params: Seq<SearchParamView>, name: Seq<char>, value: Seq<char>) -> Seq<
    SearchParamView,
> {
    match index_of_key(params, name) {
        Some(i) => params.update(
            i,
            SearchParamView { name: params[i].name, values: params[i].values.push(value) },
        ),
        None => params.push(SearchParamView { name, values: seq![value] }),
    }
}

/// The parameters after `data` is pushed: where its key has an entry, that entry gets the
/// first value of `data`, if `data` has a value; otherwise `data` becomes the last entry.
pub open spec fn with_param(params: Seq<SearchParamView>, data: SearchParamView) -> Seq<
    SearchParamView,
> {
    match index_of_key(params, data.name) {
        Some(i) => if data.values.len() > 0 {
            params.update(
                i,
                SearchParamView {
                    name: params[i].name,
                    values: params[i].values.push(data.values[0]),
                },
            )
        } else {
            params
        },
        None => params.push(data),
    }
}

/// The parameters without the entry for the key `name`; unchanged where there is none.
pub open spec fn without_key(params: Seq<SearchParamView>, name: Seq<char>) -> Seq<
    SearchParamView,
> {
    match index_of_key(params, name) {
        Some(i) => params.remove(i),
        None => params,
    }
}

/// A key or a value as it is read: percent-decoded where it decodes, left as it stands
/// where it does not, and then with a space for each plus sign.
pub open spec fn component(raw: Seq<char>) -> Seq<char> {
    plus_to_space(
        match percent_decoded(raw) {
            Some(decoded) => decoded,
            None => raw,
        },
    )
}

/// Reads one piece of a query string: exactly two parts around one `=`, the key and the
/// value.
pub open spec fn parse_pair(piece: Seq<char>) -> Option<(Seq<char>, Seq<char>)> {
    let pair = split(piece, seq!['=']);
    if pair.len() != 2 {
        None
    } else {
        Some((component(pair[0]), component(pair[1])))
    }
}

/// Reads the pieces of a query string in order, gathering the values of each key. There
/// are no parameters where one piece does not read.
pub open spec fn parse_pieces(pieces: Seq<Seq<char>>) -> Option<Seq<SearchParamView>>
    decreases pieces.len(),
{
    if pieces.len() == 0 {
        Some(Seq::empty())
    } else {
        match parse_pieces(pieces.drop_last()) {
            None => None,
            Some(before) => match parse_pair(pieces.last()) {
                Some((name, value)) => Some(with_value(before, name, value)),
                None => None,
            },
        }
    }
}

/// `s` without one leading question mark.
pub open spec fn without_question_mark(s: Seq<char>) -> Seq<char> {
    if s.len() > 0 && s[0] == '?' {
        s.skip(1)
    } else {
        s
    }
}

/// Reads a query string: one leading `?` is set aside, the rest is cut at each `&`, and the
/// pieces are read in order.
pub open spec fn parse_query(raw: Seq<char>) -> Option<Seq<SearchParamView>> {
    parse_pieces(split(without_question_mark(raw), seq!['&']))
}

/// The wire text of one key with one value, both percent-encoded.
pub open spec fn pair_text(name: Seq<char>, value: Seq<char>) -> Seq<char> {
    percent_encoded(name) + seq!['='] + percent_encoded(value)
}

impl SearchParamView {
    /// The wire texts of the pairs of the entry, one for each value.
    pub open spec fn pairs(self) -> Seq<Seq<char>> {
        Seq::new(self.values.len(), |i: int| pair_text(self.name, self.values[i]))
    }

    /// The wire text of the entry: its pairs with `&` between them.
    pub open spec fn text(self) -> Seq<char> {
        join(self.pairs(), seq!['&'])
    }
}

/// The wire texts of all the pairs of the parameters, entry by entry.
pub open spec fn all_pairs(params: Seq<SearchParamView>) -> Seq<Seq<char>>
    decreases params.len(),
{
    if params.len() == 0 {
        Seq::empty()
    } else {
        all_pairs(params.drop_last()) + params.last().pairs()
    }
}

/// The query string of the parameters: nothing where there is no entry, otherwise `?` and
/// all the pairs with `&` between them.
pub open spec fn query_text(params: Seq<SearchParamView>) -> Seq<char> {
    if params.len() == 0 {
        Seq::empty()
    } else {
        seq!['?'] + join(all_pairs(params), seq!['&'])
    }
}

/// What `index_of_key` gives: the first entry of the name, or none where no entry has it.
pub proof fn lemma_index_of_key(params: Seq<SearchParamView>, name: Seq<char>)
    ensures
        match index_of_key(params, name) {
            Some(i) => 0 <= i < params.len() && params[i].name == name && forall|j: int|
                0 <= j < i ==> (#[trigger] params[j]).name != name,
            None => forall|j: int| 0 <= j < params.len() ==> (#[trigger] params[j]).name != name,
        },
    decreases params.len(),
{
    if params.len() > 0 {
        lemma_index_of_key(params.drop_last(), name);
        assert forall|j: int| 0 <= j < params.len() - 1 implies params.drop_last()[j]
            == params[j] by {}
        match index_of_key(params.drop_last(), name) {
            Some(i) => {
                assert(params.drop_last()[i] == params[i]);
                assert forall|j: int| 0 <= j < i implies (#[trigger] params[j]).name != name by {
                    assert(params.drop_last()[j] == params[j]);
                }
            },
            None => {
                assert forall|j: int| 0 <= j < params.len() - 1 implies (#[trigger] params[j]).name
                    != name by {
                    assert(params.drop_last()[j] == params[j]);
                }
            },
        }
    }
}

/// Once a beginning of the pieces does not read, the whole does not.
pub proof fn lemma_parse_pieces_fails(pieces: Seq<Seq<char>>, k: int)
    requires
        0 <= k <= pieces.len(),
        parse_pieces(pieces.take(k)) is None,
    ensures
        parse_pieces(pieces) is None,
    decreases pieces.len(),
{
    if k == pieces.len() {
        assert(pieces.take(k) == pieces);
    } else {
        assert(pieces.drop_last().take(k) == pieces.take(k));
        lemma_parse_pieces_fails(pieces.drop_last(), k);
    }
}

fn read_component(raw: &Vec<char>) -> (r: Vec<char>)
    ensures
        r@ == component(raw@),
{
    match decode_chars(raw) {
        Some(decoded) => replace_plus(&decoded),
        None => replace_plus(raw),
    }
}

fn read_pair(piece: &Vec<char>) -> (r: Option<(String, String)>)
    ensures
        match parse_pair(piece@) {
            Some((name, value)) => r is Some && r->Some_0.0@ == name && r->Some_0.1@ == value,
            None => r is None,
        },
{
    let pair = split_chars(piece, &one_char('='));
    if pair.len() != 2 {
        return None;
    }
    proof {
        assert(texts(pair@)[0] == pair@[0]@);
        assert(texts(pair@)[1] == pair@[1]@);
    }
    let name = read_component(&pair[0]);
    let value = read_component(&pair[1]);
    Some((string_of(&name), string_of(&value)))
}

impl SearchParams {
    /// What holds of every `SearchParams`: no two entries share a key.
    #[verifier::type_invariant]
    spec fn keys_differ(&self) -> bool {
        distinct_keys(param_views(self.0@))
    }

    /// No two entries share a key. This holds of every value of the type; the function
    /// does nothing but say so.
    pub fn keys_are_distinct(&self)
        ensures
            distinct_keys(self@),
    {
        proof {
            use_type_invariant(self);
        }
    }

    /// The parameters of an empty query string.
    pub fn empty() -> (r: SearchParams)
        ensures
            r@ == Seq::<SearchParamView>::empty(),
    {
        SearchParams(Vec::new())
    }

    /// The position of the entry for the key `name`.
    fn position(&self, name: &str) -> (r: Option<usize>)
        ensures
            match r {
                Some(i) => index_of_key(self@, name@) == Some(i as int) && i < self.0.len(),
                None => index_of_key(self@, name@) is None,
            },
    {
        let mut i: usize = 0;
        assert(self@.take(0) == Seq::<SearchParamView>::empty());
        while i < self.0.len()
            invariant
                i <= self.0.len(),
                self@.len() == self.0.len(),
                index_of_key(self@.take(i as int), name@) is None,
            decreases self.0.len() - i,
        {
            proof {
                assert(self@.take(i + 1).drop_last() == self@.take(i as int));
                assert(self@.take(i + 1).last() == self.0@[i as int]@);
            }
            if same_text(self.0[i].0.as_str(), name) {
                proof {
                    lemma_index_found(self@, i + 1);
                }
                return Some(i);
            }
            i += 1;
        }
        assert(self@.take(self.0.len() as int) == self@);
        None
    }

    /// Takes the entries out, leaving none.
    fn take_entries(&mut self) -> (r: Vec<SearchParam>)
        ensures
            param_views(r@) == old(self)@,
            distinct_keys(old(self)@),
            final(self)@ == Seq::<SearchParamView>::empty(),
    {
        proof {
            use_type_invariant(&*self);
        }
        let mut list: Vec<SearchParam> = Vec::new();
        assert(param_views(list@) == Seq::<SearchParamView>::empty());
        core::mem::swap(&mut self.0, &mut list);
        list
    }

    /// Adds one value for a key.
    fn add_value(&mut self, name: String, value: String)
        ensures
            final(self)@ == with_value(old(self)@, name@, value@),
    {
        let found = self.position(name.as_str());
        let mut list = self.take_entries();
        proof {
            lemma_with_value_distinct(old(self)@, name@, value@);
        }
        match found {
            Some(i) => {
                let SearchParam(key, mut values) = list.remove(i);
                values.push(value);
                list.insert(i, SearchParam(key, values));
                proof {
                    let entry = SearchParamView {
                        name: old(self)@[i as int].name,
                        values: old(self)@[i as int].values.push(value@),
                    };
                    assert(string_views(values@) == old(self)@[i as int].values.push(value@));
                    assert(param_views(list@) == old(self)@.update(i as int, entry));
                }
            },
            None => {
                let mut values: Vec<String> = Vec::new();
                values.push(value);
                assert(string_views(values@) == seq![value@]);
                list.push(SearchParam(name, values));
                assert(param_views(list@) == old(self)@.push(
                    SearchParamView { name: name@, values: seq![value@] },
                ));
            },
        }
        self.0 = list;
    }

    /// Reads a query string out of its characters.
    pub fn parse_chars(raw: &Vec<char>) -> (r: Option<SearchParams>)
        ensures
            match parse_query(raw@) {
                Some(p) => r is Some && r->Some_0@ == p && p.len() > 0 && well_formed(p)
                    && plus_free(p),
                None => r is None,
            },
    {
        proof {
            if parse_query(raw@) is Some {
                lemma_parse_pieces_well_formed(split(without_question_mark(raw@), seq!['&']));
            }
        }
        let start: usize = if raw.len() > 0 && raw[0] == '?' {
            1
        } else {
            0
        };
        let body = crate::text::slice_chars(raw, start, raw.len());
        assert(body@ == without_question_mark(raw@));
        let pieces = split_chars(&body, &one_char('&'));
        let mut values = SearchParams::empty();
        let mut i: usize = 0;
        assert(texts(pieces@).take(0) == Seq::<Seq<char>>::empty());
        while i < pieces.len()
            invariant
                i <= pieces.len(),
                texts(pieces@) == split(without_question_mark(raw@), seq!['&']),
                parse_pieces(texts(pieces@).take(i as int)) == Some(values@),
            decreases pieces.len() - i,
        {
            let ghost upto = texts(pieces@).take(i + 1);
            proof {
                assert(upto.drop_last() == texts(pieces@).take(i as int));
                assert(upto.last() == pieces@[i as int]@);
            }
            match read_pair(&pieces[i]) {
                Some((name, value)) => {
                    values.add_value(name, value);
                },
                None => {
                    proof {
                        assert(parse_pieces(upto) is None);
                        lemma_parse_pieces_fails(texts(pieces@), i + 1);
                    }
                    return None;
                },
            }
            i += 1;
        }
        assert(texts(pieces@).take(pieces.len() as int) == texts(pieces@));
        Some(values)
    }

    /// Reads a query string such as `?a=1&b=2`. Every piece between two `&` has to hold
    /// exactly one `=`; one that does not fails the whole. What is read has an entry, no
    /// two entries of it share a key, every entry has a value, and it holds no plus sign:
    /// so it reads back from the query string that `to_string` gives for it.
    pub fn parse(s: String) -> (r: Result<SearchParams, ()>)
        ensures
            match parse_query(s@) {
                Some(p) => r is Ok && r->Ok_0@ == p && p.len() > 0 && well_formed(p) && plus_free(
                    p,
                ),
                None => r is Err,
            },
    {
        match SearchParams::parse_chars(&chars_of(s.as_str())) {
            Some(p) => Ok(p),
            None => Err(()),
        }
    }

    /// The values of the key `name`.
    pub fn get(&self, name: &str) -> (r: Option<&Vec<String>>)
        ensures
            match index_of_key(self@, name@) {
                Some(i) => r is Some && string_views(r->Some_0@) == self@[i].values,
                None => r is None,
            },
    {
        match self.position(name) {
            Some(i) => Some(&self.0[i].1),
            None => None,
        }
    }

    /// Pushes an entry: its first value joins the entry of its key where there is one,
    /// otherwise the entry becomes the last.
    pub fn push(&mut self, data: SearchParam)
        ensures
            final(self)@ == with_param(old(self)@, data@),
            distinct_keys(final(self)@),
    {
        let found = self.position(data.0.as_str());
        let mut list = self.take_entries();
        proof {
            lemma_with_param_distinct(old(self)@, data@);
        }
        match found {
            Some(i) => {
                let SearchParam(_, mut given) = data;
                if given.len() > 0 {
                    let first = given.swap_remove(0);
                    assert(first@ == data@.values[0]);
                    let SearchParam(key, mut values) = list.remove(i);
                    values.push(first);
                    list.insert(i, SearchParam(key, values));
                    proof {
                        let entry = SearchParamView {
                            name: old(self)@[i as int].name,
                            values: old(self)@[i as int].values.push(first@),
                        };
                        assert(string_views(values@) == old(self)@[i as int].values.push(first@));
                        assert(param_views(list@) == old(self)@.update(i as int, entry));
                    }
                }
            },
            None => {
                list.push(data);
                assert(param_views(list@) == old(self)@.push(data@));
            },
        }
        self.0 = list;
    }

    /// Removes the entry of the key `name`, if there is one.
    pub fn remove(&mut self, name: &str)
        ensures
            final(self)@ == without_key(old(self)@, name@),
            distinct_keys(final(self)@),
    {
        let found = self.position(name);
        let mut list = self.take_entries();
        match found {
            Some(i) => {
                list.remove(i);
                assert(param_views(list@) == old(self)@.remove(i as int));
                assert(distinct_keys(old(self)@.remove(i as int))) by {
                    let before = old(self)@;
                    let after = before.remove(i as int);
                    assert forall|a: int, b: int| 0 <= a < b < after.len() implies (
                    #[trigger] after[a]).name != (#[trigger] after[b]).name by {
                        let x = if a < i {
                            a
                        } else {
                            a + 1
                        };
                        let y = if b < i {
                            b
                        } else {
                            b + 1
                        };
                        assert(before[x].name != before[y].name);
                    }
                }
            },
            None => {},
        }
        self.0 = list;
    }

    /// Whether the key `name` has an entry.
    pub fn has(&self, name: &str) -> (r: bool)
        ensures
            r == index_of_key(self@, name@) is Some,
    {
        self.position(name).is_some()
    }

    /// A walk over the keys, in the order of the entries.
    pub fn keys(&self) -> (r: Keys<'_>)
        ensures
            r.remaining() == self@,
    {
        assert(self@.skip(0) == self@);
        Keys { params: self, position: 0 }
    }

    /// A walk over the value lists, in the order of the entries.
    pub fn values(&self) -> (r: Values<'_>)
        ensures
            r.remaining() == self@,
    {
        assert(self@.skip(0) == self@);
        Values { params: self, position: 0 }
    }

    /// A walk over the entries, in their order.
    pub fn entries(&self) -> (r: Entries<'_>)
        ensures
            r.remaining() == self@,
    {
        assert(self@.skip(0) == self@);
        Entries { params: self, position: 0 }
    }

    /// The number of entries.
    pub fn len(&self) -> (r: usize)
        ensures
            r == self@.len(),
    {
        self.0.len()
    }

    /// Appends the query string of the parameters to `out`. Every key and value that is
    /// written is percent-encodable.
    pub fn write_to(&self, out: &mut String)
        ensures
            final(out)@ == old(out)@ + query_text(self@),
            encodable_where_valued(self@),
    {
        if self.0.len() == 0 {
            assert(old(out)@ + Seq::<char>::empty() == old(out)@);
            return;
        }
        push_char(out, '?');
        let ghost amp = seq!['&'];
        let ghost start = old(out)@ + seq!['?'];
        let mut first = true;
        let mut i: usize = 0;
        assert(self@.take(0) == Seq::<SearchParamView>::empty());
        assert(start + Seq::<char>::empty() == start);
        while i < self.0.len()
            invariant
                i <= self.0.len(),
                self@.len() == self.0.len(),
                amp == seq!['&'],
                start == old(out)@ + seq!['?'],
                first == (all_pairs(self@.take(i as int)).len() == 0),
                out@ == start + join(all_pairs(self@.take(i as int)), amp),
                encodable_where_valued(self@.take(i as int)),
            decreases self.0.len() - i,
        {
            let ghost before = all_pairs(self@.take(i as int));
            let ghost entry = self.0@[i as int]@;
            let param = &self.0[i];
            let mut k: usize = 0;
            assert(before + entry.pairs().take(0) == before);
            while k < param.1.len()
                invariant
                    k <= param.1.len(),
                    param.1.len() == entry.values.len(),
                    entry == param@,
                    amp == seq!['&'],
                    first == ((before + entry.pairs().take(k as int)).len() == 0),
                    out@ == start + join(before + entry.pairs().take(k as int), amp),
                    k > 0 ==> percent_encodable(entry.name),
                    forall|m: int| 0 <= m < k ==> percent_encodable(#[trigger] entry.values[m]),
                decreases param.1.len() - k,
            {
                let ghost sofar = before + entry.pairs().take(k as int);
                let ghost mid = out@;
                if !first {
                    push_char(out, '&');
                }
                append_encoded(out, param.0.as_str());
                push_char(out, '=');
                append_encoded(out, param.1[k].as_str());
                proof {
                    let pair = entry.pairs()[k as int];
                    assert(param.1@[k as int]@ == entry.values[k as int]);
                    assert(pair == pair_text(entry.name, entry.values[k as int]));
                    assert(before + entry.pairs().take(k + 1) == sofar.push(pair));
                    crate::text::lemma_join_push(sofar, amp, pair);
                    if first {
                        assert(sofar == Seq::<Seq<char>>::empty());
                        assert(out@ == mid + pair);
                    } else {
                        assert(out@ == mid + amp + pair);
                        assert(start + join(sofar, amp) + amp + pair == start + (join(sofar, amp)
                            + amp + pair));
                    }
                }
                first = false;
                k += 1;
            }
            proof {
                assert(entry.pairs().take(param.1.len() as int) == entry.pairs());
                assert(self@.take(i + 1).drop_last() == self@.take(i as int));
                assert(self@.take(i + 1).last() == entry);
                assert forall|j: int|
                    0 <= j < i + 1 && (#[trigger] self@.take(i + 1)[j]).values.len()
                        > 0 implies encodable_entry(self@.take(i + 1)[j]) by {
                    if j < i {
                        assert(self@.take(i + 1)[j] == self@.take(i as int)[j]);
                    }
                }
            }
            i += 1;
        }
        proof {
            assert(self@.take(self.0.len() as int) == self@);
            assert(start + join(all_pairs(self@), amp) == old(out)@ + (seq!['?'] + join(
                all_pairs(self@),
                amp,
            )));
        }
    }

    /// The query string of the parameters. It reads back as the parameters, where there is
    /// an entry, every entry has a value, and no key or value holds a plus sign.
    pub fn to_string(&self) -> (r: String)
        ensures
            r@ == query_text(self@),
            self@.len() > 0 && well_formed(self@) && plus_free(self@) ==> parse_query(r@) == Some(
                self@,
            ),
    {
        let mut out = String::new();
        self.write_to(&mut out);
        proof {
            assert(Seq::<char>::empty() + query_text(self@) == query_text(self@));
            if self@.len() > 0 && well_formed(self@) && plus_free(self@) {
                assert(encodable(self@));
                lemma_format_then_parse(self@);
            }
        }
        out
    }
}

/// An entry of the name at the end of a beginning that holds no other is the first.
proof fn lemma_index_found(params: Seq<SearchParamView>, k: int)
    requires
        0 < k <= params.len(),
        index_of_key(params.take(k - 1), params[k - 1].name) is None,
    ensures
        index_of_key(params, params[k - 1].name) == Some(k - 1),
    decreases params.len(),
{
    if k == params.len() {
        assert(params.take(k - 1) == params.drop_last());
    } else {
        assert(params.drop_last().take(k - 1) == params.take(k - 1));
        lemma_index_found(params.drop_last(), k);
    }
}

impl SearchParam {
    /// The key.
    pub fn name(&self) -> (r: &String)
        ensures
            r@ == self@.name,
    {
        &self.0
    }

    /// The values of the key.
    pub fn value(&self) -> (r: &Vec<String>)
        ensures
            string_views(r@) == self@.values,
    {
        &self.1
    }

    /// Reads one `key=value` piece into an entry with that one value.
    pub fn parse(s: String) -> (r: Result<SearchParam, ()>)
        ensures
            match parse_pair(s@) {
                Some((name, value)) => r is Ok && r->Ok_0@ == (SearchParamView {
                    name,
                    values: seq![value],
                }),
                None => r is Err,
            },
    {
        match read_pair(&chars_of(s.as_str())) {
            Some((name, value)) => {
                let mut values: Vec<String> = Vec::new();
                values.push(value);
                assert(string_views(values@) == seq![value@]);
                Ok(SearchParam(name, values))
            },
            None => Err(()),
        }
    }

    /// The entry of the key `name` with the given values.
    pub fn new(name: String, value: Vec<String>) -> (r: SearchParam)
        ensures
            r@ == (SearchParamView { name: name@, values: string_views(value@) }),
    {
        SearchParam(name, value)
    }

    /// The wire text of the entry: `key=value` for each value, with `&` between them.
    pub fn to_string(&self) -> (r: String)
        ensures
            r@ == self@.text(),
    {
        let mut out = String::new();
        let ghost amp = seq!['&'];
        let ghost entry = self@;
        let mut k: usize = 0;
        assert(entry.pairs().take(0) == Seq::<Seq<char>>::empty());
        while k < self.1.len()
            invariant
                k <= self.1.len(),
                self.1.len() == entry.values.len(),
                entry == self@,
                amp == seq!['&'],
                out@ == join(entry.pairs().take(k as int), amp),
            decreases self.1.len() - k,
        {
            let ghost sofar = entry.pairs().take(k as int);
            let ghost mid = out@;
            if k > 0 {
                push_char(&mut out, '&');
            }
            append_encoded(&mut out, self.0.as_str());
            push_char(&mut out, '=');
            append_encoded(&mut out, self.1[k].as_str());
            proof {
                let pair = entry.pairs()[k as int];
                assert(self.1@[k as int]@ == entry.values[k as int]);
                assert(entry.pairs().take(k + 1) == sofar.push(pair));
                crate::text::lemma_join_push(sofar, amp, pair);
                if k > 0 {
                    assert(out@ == mid + amp + pair);
                } else {
                    assert(out@ == mid + pair);
                    assert(Seq::<char>::empty() + pair == pair);
                }
            }
            k += 1;
        }
        assert(entry.pairs().take(self.1.len() as int) == entry.pairs());
        out
    }
}

/// A walk over the keys of parameters.
pub struct Keys<'a> {
    params: &'a SearchParams,
    position: usize,
}

/// A walk over the value lists of parameters.
pub struct Values<'a> {
    params: &'a SearchParams,
    position: usize,
}

/// A walk over the entries of parameters.
pub struct Entries<'a> {
    params: &'a SearchParams,
    position: usize,
}

/// A key together with what belongs to it.
pub struct Entry<K, V>(K, V);

impl<K, V> Entry<K, V> {
    /// The first part of the entry.
    pub closed spec fn spec_key(&self) -> K {
        self.0
    }

    /// The second part of the entry.
    pub closed spec fn spec_value(&self) -> V {
        self.1
    }

    /// The key.
    pub fn key(&self) -> (r: &K)
        ensures
            *r == self.spec_key(),
    {
        &self.0
    }

    /// What belongs to the key.
    pub fn value(&self) -> (r: &V)
        ensures
            *r == self.spec_value(),
    {
        &self.1
    }
}

impl<'a> Keys<'a> {
    /// The entries whose keys the walk has yet to give.
    pub closed spec fn remaining(&self) -> Seq<SearchParamView> {
        if self.position <= self.params@.len() {
            self.params@.skip(self.position as int)
        } else {
            Seq::empty()
        }
    }

    /// The next key, and `None` once every key was given.
    pub fn next(&mut self) -> (r: Option<&'a String>)
        ensures
            match r {
                Some(key) => old(self).remaining().len() > 0 && key@ == old(
                    self,
                ).remaining()[0].name && final(self).remaining() == old(self).remaining().skip(1),
                None => old(self).remaining().len() == 0 && final(self).remaining() == old(
                    self,
                ).remaining(),
            },
    {
        if self.position < self.params.0.len() {
            let param = &self.params.0[self.position];
            assert(self.params@.skip(self.position as int).skip(1) == self.params@.skip(
                self.position + 1,
            ));
            self.position += 1;
            Some(&param.0)
        } else {
            None
        }
    }
}

impl<'a> Values<'a> {
    /// The entries whose values the walk has yet to give.
    pub closed spec fn remaining(&self) -> Seq<SearchParamView> {
        if self.position <= self.params@.len() {
            self.params@.skip(self.position as int)
        } else {
            Seq::empty()
        }
    }

    /// The next list of values, and `None` once every list was given.
    pub fn next(&mut self) -> (r: Option<&'a Vec<String>>)
        ensures
            match r {
                Some(values) => old(self).remaining().len() > 0 && string_views(values@) == old(
                    self,
                ).remaining()[0].values && final(self).remaining() == old(
                    self,
                ).remaining().skip(1),
                None => old(self).remaining().len() == 0 && final(self).remaining() == old(
                    self,
                ).remaining(),
            },
    {
        if self.position < self.params.0.len() {
            let param = &self.params.0[self.position];
            assert(self.params@.skip(self.position as int).skip(1) == self.params@.skip(
                self.position + 1,
            ));
            self.position += 1;
            Some(&param.1)
        } else {
            None
        }
    }
}

impl<'a> Entries<'a> {
    /// The entries that the walk has yet to give.
    pub closed spec fn remaining(&self) -> Seq<SearchParamView> {
        if self.position <= self.params@.len() {
            self.params@.skip(self.position as int)
        } else {
            Seq::empty()
        }
    }

    /// The next entry, and `None` once every entry was given.
    pub fn next(&mut self) -> (r: Option<Entry<&'a String, &'a Vec<String>>>)
        ensures
            match r {
                Some(entry) => old(self).remaining().len() > 0 && entry.spec_key()@ == old(
                    self,
                ).remaining()[0].name && string_views(entry.spec_value()@) == old(
                    self,
                ).remaining()[0].values && final(self).remaining() == old(
                    self,
                ).remaining().skip(1),
                None => old(self).remaining().len() == 0 && final(self).remaining() == old(
                    self,
                ).remaining(),
            },
    {
        if self.position < self.params.0.len() {
            let param = &self.params.0[self.position];
            assert(self.params@.skip(self.position as int).skip(1) == self.params@.skip(
                self.position + 1,
            ));
            self.position += 1;
            Some(Entry(&param.0, &param.1))
        } else {
            None
        }
    }
}

/// Whether the parameters are as reading leaves them: no two entries share a key, and
/// every entry has a value.
pub open spec fn well_formed(params: Seq<SearchParamView>) -> bool {
    &&& distinct_keys(params)
    &&& forall|i: int| 0 <= i < params.len() ==> (#[trigger] params[i]).values.len() > 0
}

/// Whether an entry holds no plus sign, in its key or in a value.
pub open spec fn plus_free_entry(entry: SearchParamView) -> bool {
    &&& free_of_char(entry.name, '+')
    &&& forall|k: int| 0 <= k < entry.values.len() ==> free_of_char(#[trigger] entry.values[k], '+')
}

/// Whether the parameters hold no plus sign.
pub open spec fn plus_free(params: Seq<SearchParamView>) -> bool {
    forall|i: int| 0 <= i < params.len() ==> plus_free_entry(#[trigger] params[i])
}

/// Whether the key and the values of an entry are percent-encodable.
pub open spec fn encodable_entry(entry: SearchParamView) -> bool {
    &&& percent_encodable(entry.name)
    &&& forall|k: int| 0 <= k < entry.values.len() ==> percent_encodable(#[trigger] entry.values[k])
}

/// Whether the entries that have a value have keys and values that are
/// percent-encodable.
pub open spec fn encodable_where_valued(params: Seq<SearchParamView>) -> bool {
    forall|i: int|
        0 <= i < params.len() && (#[trigger] params[i]).values.len() > 0 ==> encodable_entry(
            params[i],
        )
}

/// Whether every key and every value of the parameters is percent-encodable.
pub open spec fn encodable(params: Seq<SearchParamView>) -> bool {
    forall|i: int| 0 <= i < params.len() ==> encodable_entry(#[trigger] params[i])
}

/// One more value leaves the keys distinct.
pub proof fn lemma_with_value_distinct(
    params: Seq<SearchParamView>,
    name: Seq<char>,
    value: Seq<char>,
)
    requires
        distinct_keys(params),
    ensures
        distinct_keys(with_value(params, name, value)),
{
    let after = with_value(params, name, value);
    lemma_index_of_key(params, name);
    assert forall|a: int, b: int| 0 <= a < b < after.len() implies (#[trigger] after[a]).name != (
    #[trigger] after[b]).name by {
        if b < params.len() {
            assert(params[a].name != params[b].name);
        } else {
            assert(params[a].name != name);
        }
    }
}

/// Pushing an entry leaves the keys distinct.
pub proof fn lemma_with_param_distinct(params: Seq<SearchParamView>, data: SearchParamView)
    requires
        distinct_keys(params),
    ensures
        distinct_keys(with_param(params, data)),
{
    let after = with_param(params, data);
    lemma_index_of_key(params, data.name);
    assert forall|a: int, b: int| 0 <= a < b < after.len() implies (#[trigger] after[a]).name != (
    #[trigger] after[b]).name by {
        if b < params.len() {
            assert(params[a].name != params[b].name);
        } else {
            assert(params[a].name != data.name);
        }
    }
}

/// A component, as it is read, holds no plus sign.
pub proof fn lemma_component_plus_free(raw: Seq<char>)
    ensures
        free_of_char(component(raw), '+'),
{
}

/// One more value leaves well-formed parameters well-formed.
pub proof fn lemma_with_value_well_formed(
    params: Seq<SearchParamView>,
    name: Seq<char>,
    value: Seq<char>,
)
    requires
        well_formed(params),
        plus_free(params),
        free_of_char(name, '+'),
        free_of_char(value, '+'),
    ensures
        well_formed(with_value(params, name, value)),
        plus_free(with_value(params, name, value)),
        with_value(params, name, value).len() > 0,
{
    let after = with_value(params, name, value);
    lemma_index_of_key(params, name);
    match index_of_key(params, name) {
        Some(i) => {
            assert forall|a: int| 0 <= a < after.len() implies (#[trigger] after[a]).name
                == params[a].name by {}
            assert forall|a: int, b: int| 0 <= a < b < after.len() implies (#[trigger] after[a]).name
                != (#[trigger] after[b]).name by {
                assert(params[a].name != params[b].name);
            }
            assert forall|a: int| 0 <= a < after.len() implies plus_free_entry(
                #[trigger] after[a],
            ) by {
                assert(plus_free_entry(params[a]));
                if a == i {
                    assert forall|k: int| 0 <= k < after[a].values.len() implies free_of_char(
                        #[trigger] after[a].values[k],
                        '+',
                    ) by {
                        if k < params[a].values.len() {
                            assert(after[a].values[k] == params[a].values[k]);
                        }
                    }
                }
            }
        },
        None => {
            assert forall|a: int, b: int| 0 <= a < b < after.len() implies (#[trigger] after[a]).name
                != (#[trigger] after[b]).name by {
                if b < params.len() {
                    assert(params[a].name != params[b].name);
                } else {
                    assert(params[a].name != name);
                }
            }
            assert forall|a: int| 0 <= a < after.len() implies plus_free_entry(
                #[trigger] after[a],
            ) by {
                if a < params.len() {
                    assert(plus_free_entry(params[a]));
                }
            }
        },
    }
}

/// What reading gives is well-formed and holds no plus sign; it is not empty where there
/// was a piece to read.
pub proof fn lemma_parse_pieces_well_formed(pieces: Seq<Seq<char>>)
    requires
        parse_pieces(pieces) is Some,
    ensures
        well_formed(parse_pieces(pieces)->Some_0),
        plus_free(parse_pieces(pieces)->Some_0),
        pieces.len() > 0 ==> parse_pieces(pieces)->Some_0.len() > 0,
    decreases pieces.len(),
{
    if pieces.len() > 0 {
        lemma_parse_pieces_well_formed(pieces.drop_last());
        let before = parse_pieces(pieces.drop_last())->Some_0;
        let pair = split(pieces.last(), seq!['=']);
        lemma_component_plus_free(pair[0]);
        lemma_component_plus_free(pair[1]);
        lemma_with_value_well_formed(before, component(pair[0]), component(pair[1]));
    }
}

/// The wire text of a pair holds no `&`.
pub proof fn lemma_pair_text_free_of_ampersand(name: Seq<char>, value: Seq<char>)
    requires
        percent_encodable(name),
        percent_encodable(value),
    ensures
        free_of(pair_text(name, value), seq!['&']),
{
    let t = pair_text(name, value);
    let n = percent_encoded(name);
    let v = percent_encoded(value);
    crate::percent::lemma_encoded_is_plain(name);
    crate::percent::lemma_encoded_is_plain(value);
    assert forall|j: int| 0 <= j < t.len() implies t[j] != '&' by {
        if j < n.len() {
            assert(t[j] == n[j]);
        } else if j > n.len() {
            assert(t[j] == v[j - n.len() - 1]);
        }
    }
    crate::text::lemma_free_of_char(t, '&');
}

/// The wire text of a pair reads back as the pair, where key and value are
/// percent-encodable and hold no plus sign.
pub proof fn lemma_pair_parses(name: Seq<char>, value: Seq<char>)
    requires
        percent_encodable(name),
        percent_encodable(value),
        free_of_char(name, '+'),
        free_of_char(value, '+'),
    ensures
        parse_pair(pair_text(name, value)) == Some((name, value)),
{
    let n = percent_encoded(name);
    let v = percent_encoded(value);
    let eq = seq!['='];
    crate::percent::lemma_encoded_is_plain(name);
    crate::percent::lemma_encoded_is_plain(value);
    assert(free_of_char(v, '='));
    crate::text::lemma_free_of_char(v, '=');
    crate::text::lemma_split_whole(v, eq);
    assert forall|j: int| 0 <= j < n.len() implies !occurs_at(n + eq + v, eq, j) by {
        if occurs_at(n + eq + v, eq, j) {
            assert((n + eq + v).subrange(j, j + 1)[0] == '=');
            assert((n + eq + v)[j] == n[j]);
        }
    }
    crate::text::lemma_split_first(n, eq, v);
    assert(split(pair_text(name, value), eq) == seq![n, v]);
    assert(plus_to_space(name) == name);
    assert(plus_to_space(value) == value);
}

/// Every pair text of encodable parameters holds no `&`.
pub proof fn lemma_all_pairs_free_of_ampersand(params: Seq<SearchParamView>)
    requires
        encodable(params),
    ensures
        forall|k: int|
            0 <= k < all_pairs(params).len() ==> free_of(
                #[trigger] all_pairs(params)[k],
                seq!['&'],
            ),
    decreases params.len(),
{
    if params.len() > 0 {
        let before = params.drop_last();
        let last = params.last();
        assert forall|i: int| 0 <= i < before.len() implies encodable_entry(
            #[trigger] before[i],
        ) by {
            assert(before[i] == params[i]);
        }
        lemma_all_pairs_free_of_ampersand(before);
        assert(encodable_entry(last));
        assert forall|k: int| 0 <= k < all_pairs(params).len() implies free_of(
            #[trigger] all_pairs(params)[k],
            seq!['&'],
        ) by {
            if k < all_pairs(before).len() {
                assert(all_pairs(params)[k] == all_pairs(before)[k]);
            } else {
                let m = k - all_pairs(before).len();
                assert(all_pairs(params)[k] == pair_text(last.name, last.values[m]));
                lemma_pair_text_free_of_ampersand(last.name, last.values[m]);
            }
        }
    }
}

/// The pairs of an entry whose key is new, read behind what came before, add the entry.
proof fn lemma_entry_parses(before: Seq<SearchParamView>, entry: SearchParamView, k: int)
    requires
        0 <= k <= entry.values.len(),
        parse_pieces(all_pairs(before)) == Some(before),
        index_of_key(before, entry.name) is None,
        plus_free_entry(entry),
        encodable_entry(entry),
    ensures
        parse_pieces(all_pairs(before) + entry.pairs().take(k)) == Some(
            if k == 0 {
                before
            } else {
                before.push(SearchParamView { name: entry.name, values: entry.values.take(k) })
            },
        ),
    decreases k,
{
    if k == 0 {
        assert(all_pairs(before) + entry.pairs().take(0) == all_pairs(before));
    } else {
        lemma_entry_parses(before, entry, k - 1);
        let pieces = all_pairs(before) + entry.pairs().take(k);
        let value = entry.values[k - 1];
        assert(pieces.drop_last() == all_pairs(before) + entry.pairs().take(k - 1));
        assert(pieces.last() == pair_text(entry.name, value));
        lemma_pair_parses(entry.name, value);
        assert(entry.values.take(k - 1).push(value) == entry.values.take(k));
        if k == 1 {
            assert(seq![value] == entry.values.take(1));
        } else {
            let sofar = before.push(
                SearchParamView { name: entry.name, values: entry.values.take(k - 1) },
            );
            assert(sofar.drop_last() == before);
            assert(index_of_key(sofar, entry.name) == Some(before.len() as int));
            assert(sofar.update(
                before.len() as int,
                SearchParamView { name: entry.name, values: entry.values.take(k) },
            ) == before.push(SearchParamView { name: entry.name, values: entry.values.take(k) }));
        }
    }
}

/// The pair texts of well-formed parameters read back as the parameters.
pub proof fn lemma_pairs_parse(params: Seq<SearchParamView>)
    requires
        well_formed(params),
        plus_free(params),
        encodable(params),
    ensures
        parse_pieces(all_pairs(params)) == Some(params),
        params.len() > 0 ==> all_pairs(params).len() > 0,
    decreases params.len(),
{
    if params.len() > 0 {
        let before = params.drop_last();
        let last = params.last();
        assert forall|i: int| 0 <= i < before.len() implies before[i] == params[i] by {}
        assert(well_formed(before)) by {
            assert forall|i: int, j: int| 0 <= i < j < before.len() implies (
            #[trigger] before[i]).name != (#[trigger] before[j]).name by {
                assert(params[i].name != params[j].name);
            }
            assert forall|i: int| 0 <= i < before.len() implies (#[trigger] before[i]).values.len()
                > 0 by {
                assert(params[i].values.len() > 0);
            }
        }
        assert(plus_free(before)) by {
            assert forall|i: int| 0 <= i < before.len() implies plus_free_entry(
                #[trigger] before[i],
            ) by {
                assert(plus_free_entry(params[i]));
            }
        }
        assert(encodable(before)) by {
            assert forall|i: int| 0 <= i < before.len() implies encodable_entry(
                #[trigger] before[i],
            ) by {
                assert(encodable_entry(params[i]));
            }
        }
        lemma_pairs_parse(before);
        lemma_index_of_key(before, last.name);
        assert(index_of_key(before, last.name) is None) by {
            if index_of_key(before, last.name) is Some {
                let i = index_of_key(before, last.name)->Some_0;
                assert(params[i].name != params[params.len() - 1].name);
            }
        }
        assert(plus_free_entry(last));
        assert(encodable_entry(last));
        assert(last.values.len() > 0);
        lemma_entry_parses(before, last, last.values.len() as int);
        assert(last.pairs().take(last.values.len() as int) == last.pairs());
        assert(last.values.take(last.values.len() as int) == last.values);
        assert(before.push(last) == params);
    } else {
        assert(params == Seq::<SearchParamView>::empty());
    }
}

/// The query string of parameters reads back as the parameters. This holds of parameters
/// that are not empty, in which no two entries share a key and every entry has a value,
/// and whose keys and values are percent-encodable and hold no plus sign.
pub proof fn lemma_format_then_parse(params: Seq<SearchParamView>)
    requires
        params.len() > 0,
        well_formed(params),
        plus_free(params),
        encodable(params),
    ensures
        parse_query(query_text(params)) == Some(params),
{
    let amp = seq!['&'];
    let joined = join(all_pairs(params), amp);
    lemma_pairs_parse(params);
    lemma_all_pairs_free_of_ampersand(params);
    crate::text::lemma_split_join(all_pairs(params), amp);
    assert((seq!['?'] + joined).skip(1) == joined);
}

/// Reading a query string, writing what was read and reading that again gives what the
/// first reading gave: the same keys in the same order, each with the same values. This
/// holds of every query string that reads, its keys and values being percent-encodable.
pub proof fn lemma_parse_format_parse(raw: Seq<char>)
    requires
        parse_query(raw) is Some,
        encodable(parse_query(raw)->Some_0),
    ensures
        parse_query(query_text(parse_query(raw)->Some_0)) == parse_query(raw),
{
    let pieces = split(without_question_mark(raw), seq!['&']);
    assert(pieces.len() > 0);
    lemma_parse_pieces_well_formed(pieces);
    lemma_format_then_parse(parse_query(raw)->Some_0);
}

} // verus!
