//! Names cut into runs of letters and runs of digits, and the order in
//! which a reader would put them: letters by their bytes, digits by the
//! number they stand for.

use crate::check_digit::{all_digits, is_digit};
use crate::decimal::decimal_value;
use num::BigInt;
use regex::Regex;
use std::cmp::Ordering;
use vstd::prelude::*;
use vstd::std_specs::cmp::{PartialEqSpecImpl, PartialOrdSpecImpl};
use vstd::string::StringSliceAdditionalSpecFns;
use vstd::utf8::{
    encode_scalar, encode_utf8, encode_utf8_valid_utf8, is_char_boundary,
    is_char_boundary_start_end_of_seq,
};

verus! {

/// The pattern of a run of digits.
pub const NUMBERS: &'static str = "\\d+";

/// How one thing stands to another.
#[derive(Debug, Clone, Copy, PartialEq, Eq, Structural)]
pub enum Order {
    Less,
    Equal,
    Greater,
}

/// One run of a name, as the order sees it.
pub enum Token {
    /// A run of letters, by its bytes.
    Letters(Seq<u8>),
    /// A run of digits, by the number it stands for.
    Number(nat),
}

/// Where the matches of `pattern` lie in `haystack`, as the regex crate
/// finds them one after another: each by the byte offsets of its start and
/// of its end. No match where the pattern is refused.
pub uninterp spec fn match_spans(pattern: Seq<char>, haystack: Seq<char>) -> Seq<(usize, usize)>;

/// `Regex::new` and `Regex::find_iter` of the regex crate, with
/// `Match::start` and `Match::end`: compiles `pattern` and lists, for each
/// of its successive matches in `haystack`, the byte offsets where the
/// match starts and ends. The list is a function of the two texts alone.
#[verifier::external_body]
fn find_spans(pattern: &str, haystack: &str) -> (spans: Vec<(usize, usize)>)
    ensures
        spans@ == match_spans(pattern@, haystack@),
{
    match Regex::new(pattern) {
        Ok(regex) => regex.find_iter(haystack).map(|m| (m.start(), m.end())).collect(),
        Err(_) => Vec::new(),
    }
}

/// Whether `text` is a run of one or more ASCII digits.
pub open spec fn is_decimal(text: Seq<u8>) -> bool {
    text.len() > 0 && all_digits(text)
}

/// How the number `x` stands to the number `y`.
pub open spec fn number_order(x: nat, y: nat) -> Order {
    if x < y {
        Order::Less
    } else if x == y {
        Order::Equal
    } else {
        Order::Greater
    }
}

/// How `a` stands to `b` byte by byte: the first byte that differs decides,
/// and a text comes before every longer text that starts with it.
pub open spec fn bytes_order(a: Seq<u8>, b: Seq<u8>) -> Order
    decreases a.len(),
{
    if a.len() == 0 && b.len() == 0 {
        Order::Equal
    } else if a.len() == 0 {
        Order::Less
    } else if b.len() == 0 {
        Order::Greater
    } else if a[0] < b[0] {
        Order::Less
    } else if a[0] > b[0] {
        Order::Greater
    } else {
        bytes_order(a.drop_first(), b.drop_first())
    }
}

/// How one run stands to another. A run of letters and a run of digits do
/// not compare.
pub open spec fn token_order(a: Token, b: Token) -> Option<Order> {
    match (a, b) {
        (Token::Number(x), Token::Number(y)) => Some(number_order(x, y)),
        (Token::Letters(x), Token::Letters(y)) => Some(bytes_order(x, y)),
        _ => None,
    }
}

/// How one name stands to another: the first pair of runs that is not equal
/// decides, and a name comes before every longer name that starts with it.
pub open spec fn natural_order(a: Seq<Token>, b: Seq<Token>) -> Option<Order>
    decreases a.len(),
{
    if a.len() == 0 || b.len() == 0 {
        Some(number_order(a.len(), b.len()))
    } else {
        match token_order(a[0], b[0]) {
            Some(Order::Equal) => natural_order(a.drop_first(), b.drop_first()),
            other => other,
        }
    }
}

/// Whether the first `end` bytes of `bytes` are a whole number of
/// characters, and at least one byte.
pub open spec fn usable_end(bytes: Seq<u8>, end: int) -> bool {
    0 < end <= bytes.len() && is_char_boundary(bytes, end)
}

/// One step of cutting: the run at the front of `rest`, the number of bytes
/// it takes, and whether it uses up the next run of digits.
pub struct Step {
    pub token: Token,
    pub used: int,
    pub number: bool,
}

/// The run at the front of `rest`, which starts at byte `pos` of the name,
/// given where the next run of digits lies. Where a run of digits starts
/// here, it is the run, and counts only where all of it is ASCII digits.
/// Else the run is of letters and goes up to the next run of digits, or to
/// the end where none follows.
pub open spec fn first_token(rest: Seq<u8>, pos: int, next: Option<(usize, usize)>) -> Option<
    Step,
> {
    match next {
        None => {
            if rest.len() > 0 {
                Some(Step { token: Token::Letters(rest), used: rest.len() as int, number: false })
            } else {
                None
            }
        },
        Some((start, end)) => {
            if start == pos {
                let run = end - start;
                if usable_end(rest, run) && all_digits(rest.subrange(0, run)) {
                    Some(
                        Step {
                            token: Token::Number(decimal_value(rest.subrange(0, run))),
                            used: run,
                            number: true,
                        },
                    )
                } else {
                    None
                }
            } else if start > pos {
                let gap = start - pos;
                if usable_end(rest, gap) {
                    Some(
                        Step {
                            token: Token::Letters(rest.subrange(0, gap)),
                            used: gap,
                            number: false,
                        },
                    )
                } else {
                    None
                }
            } else {
                None
            }
        },
    }
}

/// The next run of digits, where one is left.
pub open spec fn next_span(spans: Seq<(usize, usize)>) -> Option<(usize, usize)> {
    if spans.len() > 0 {
        Some(spans[0])
    } else {
        None
    }
}

/// `tokens` after `front`, where there are any.
pub open spec fn after(front: Seq<Token>, tokens: Option<Seq<Token>>) -> Option<Seq<Token>> {
    match tokens {
        Some(rest) => Some(front + rest),
        None => None,
    }
}

/// The runs of `rest`, which starts at byte `pos` of the name, given where
/// the runs of digits lie that are still to come.
pub open spec fn tokens_from(rest: Seq<u8>, pos: int, spans: Seq<(usize, usize)>) -> Option<
    Seq<Token>,
>
    decreases spans.len(), rest.len(),
{
    if rest.len() == 0 && spans.len() == 0 {
        Some(Seq::empty())
    } else {
        match first_token(rest, pos, next_span(spans)) {
            Some(step) => after(
                seq![step.token],
                tokens_from(
                    rest.skip(step.used),
                    pos + step.used,
                    if step.number {
                        spans.drop_first()
                    } else {
                        spans
                    },
                ),
            ),
            None => None,
        }
    }
}

/// The runs of the name with the UTF-8 bytes `bytes`, given where its runs
/// of digits lie; nothing where the places do not fit the name.
pub open spec fn cut_at(bytes: Seq<u8>, spans: Seq<(usize, usize)>) -> Option<Seq<Token>> {
    tokens_from(bytes, 0, spans)
}

/// The runs that the name `text` is made of, or nothing where a run of
/// digits holds a digit that is not ASCII.
pub open spec fn tokens_of(text: Seq<char>) -> Option<Seq<Token>> {
    cut_at(encode_utf8(text), match_spans(NUMBERS@, text))
}

/// The order seen from the other side.
pub open spec fn turned(order: Option<Order>) -> Option<Order> {
    match order {
        Some(Order::Less) => Some(Order::Greater),
        Some(Order::Equal) => Some(Order::Equal),
        Some(Order::Greater) => Some(Order::Less),
        None => None,
    }
}

/// Two texts stand to each other the same way from either side.
pub proof fn lemma_bytes_order_turns(a: Seq<u8>, b: Seq<u8>)
    ensures
        Some(bytes_order(b, a)) == turned(Some(bytes_order(a, b))),
    decreases a.len(),
{
    if a.len() > 0 && b.len() > 0 && a[0] == b[0] {
        lemma_bytes_order_turns(a.drop_first(), b.drop_first());
    }
}

/// Two names stand to each other the same way from either side: where one
/// comes before the other, the other comes after it.
pub proof fn lemma_natural_order_turns(a: Seq<Token>, b: Seq<Token>)
    ensures
        natural_order(b, a) == turned(natural_order(a, b)),
    decreases a.len(),
{
    if a.len() > 0 && b.len() > 0 {
        match (a[0], b[0]) {
            (Token::Letters(x), Token::Letters(y)) => {
                lemma_bytes_order_turns(x, y);
            },
            _ => {},
        }
        if token_order(a[0], b[0]) == Some(Order::Equal) {
            lemma_natural_order_turns(a.drop_first(), b.drop_first());
        }
    }
}

/// A name stands equal to itself.
pub proof fn lemma_natural_order_of_itself(a: Seq<Token>)
    ensures
        natural_order(a, a) == Some(Order::Equal),
    decreases a.len(),
{
    if a.len() > 0 {
        match a[0] {
            Token::Letters(x) => {
                lemma_bytes_order_of_itself(x);
            },
            _ => {},
        }
        lemma_natural_order_of_itself(a.drop_first());
    }
}

/// A text stands equal to itself.
proof fn lemma_bytes_order_of_itself(a: Seq<u8>)
    ensures
        bytes_order(a, a) == Order::Equal,
    decreases a.len(),
{
    if a.len() > 0 {
        lemma_bytes_order_of_itself(a.drop_first());
    }
}

/// A text has no bytes exactly where it has no characters.
pub proof fn lemma_text_has_bytes(text: Seq<char>)
    ensures
        (encode_utf8(text).len() == 0) == (text.len() == 0),
{
    if text.len() > 0 {
        assert(encode_scalar(text[0] as u32).len() >= 1);
    }
}

/// One run of a name: its text, and whether it is a run of digits.
pub struct StringElement<'a> {
    text: &'a str,
    number: bool,
}

impl<'a> View for StringElement<'a> {
    type V = Token;

    closed spec fn view(&self) -> Token {
        if self.number {
            Token::Number(decimal_value(self.text.spec_bytes()))
        } else {
            Token::Letters(self.text.spec_bytes())
        }
    }
}

impl<'a> StringElement<'a> {
    #[verifier::type_invariant]
    spec fn digits_are_digits(&self) -> bool {
        self.number ==> is_decimal(self.text.spec_bytes())
    }

    /// The text of the run.
    pub fn text(&self) -> (text: &'a str)
        ensures
            self@ is Letters ==> self@ == Token::Letters(text.spec_bytes()),
            self@ is Number ==> is_decimal(text.spec_bytes()) && self@ == Token::Number(
                decimal_value(text.spec_bytes()),
            ),
    {
        proof {
            use_type_invariant(self);
        }
        self.text
    }

    /// Whether the run is a run of digits.
    pub fn is_number(&self) -> (number: bool)
        ensures
            number == (self@ is Number),
    {
        self.number
    }
}

/// Whether every byte of `bytes` is an ASCII digit.
pub fn only_digits(bytes: &[u8]) -> (yes: bool)
    ensures
        yes == all_digits(bytes@),
{
    let mut i: usize = 0;
    while i < bytes.len()
        invariant
            i <= bytes@.len(),
            forall|j: int| 0 <= j < i ==> is_digit(#[trigger] bytes@[j]),
        decreases bytes@.len() - i,
    {
        if bytes[i] < 0x30 || bytes[i] > 0x39 {
            return false;
        }
        i += 1;
    }
    true
}

/// `str::parse` into a `BigInt` of the num crate, for both texts, and
/// `partial_cmp` on the two numbers: where both texts are runs of ASCII
/// digits, the numbers they stand for in decimal are compared, however long
/// the runs are.
#[verifier::external_body]
fn compare_numbers(a: &str, b: &str) -> (order: Option<Order>)
    ensures
        is_decimal(a.spec_bytes()) && is_decimal(b.spec_bytes()) ==> order == Some(
            number_order(decimal_value(a.spec_bytes()), decimal_value(b.spec_bytes())),
        ),
{
    let x = a.parse::<BigInt>().ok()?;
    let y = b.parse::<BigInt>().ok()?;
    match x.partial_cmp(&y)? {
        Ordering::Less => Some(Order::Less),
        Ordering::Equal => Some(Order::Equal),
        Ordering::Greater => Some(Order::Greater),
    }
}

/// Compares two texts byte by byte.
pub fn compare_bytes(a: &[u8], b: &[u8]) -> (order: Order)
    ensures
        order == bytes_order(a@, b@),
{
    let mut i: usize = 0;
    assert(a@.skip(0) =~= a@ && b@.skip(0) =~= b@);
    while i < a.len() && i < b.len()
        invariant
            i <= a@.len(),
            i <= b@.len(),
            bytes_order(a@, b@) == bytes_order(a@.skip(i as int), b@.skip(i as int)),
        decreases a@.len() - i,
    {
        if a[i] < b[i] {
            return Order::Less;
        }
        if a[i] > b[i] {
            return Order::Greater;
        }
        assert(a@.skip(i as int).drop_first() =~= a@.skip(i + 1));
        assert(b@.skip(i as int).drop_first() =~= b@.skip(i + 1));
        i += 1;
    }
    if i < b.len() {
        Order::Less
    } else if i < a.len() {
        Order::Greater
    } else {
        Order::Equal
    }
}

/// Compares two runs. A run of letters and a run of digits do not compare.
pub fn compare_elements(a: &StringElement<'_>, b: &StringElement<'_>) -> (order: Option<Order>)
    ensures
        order == token_order(a@, b@),
{
    proof {
        use_type_invariant(a);
        use_type_invariant(b);
    }
    if a.number && b.number {
        compare_numbers(a.text, b.text)
    } else if !a.number && !b.number {
        Some(compare_bytes(a.text.as_bytes(), b.text.as_bytes()))
    } else {
        None
    }
}

/// A name cut into its runs of letters and of digits.
pub struct HumanString<'a>(Vec<StringElement<'a>>);

impl<'a> View for HumanString<'a> {
    type V = Seq<Token>;

    closed spec fn view(&self) -> Seq<Token> {
        Seq::new(self.0@.len(), |i: int| self.0@[i]@)
    }
}

impl<'a> HumanString<'a> {
    /// Cuts `s` into its runs. Gives nothing where a run of digits holds a
    /// digit that is not ASCII.
    pub fn new(s: &'a str) -> (name: Option<Self>)
        ensures
            name is Some <==> tokens_of(s@) is Some,
            name matches Some(cut) ==> Some(cut@) == tokens_of(s@),
    {
        let spans = find_spans(NUMBERS, s);
        Self::cut(s, spans.as_slice())
    }

    /// Cuts `s` into its runs, given where its runs of digits lie. Gives
    /// nothing where the places do not fit `s`: where they are out of order
    /// or out of `s`, fall inside a character, or hold anything but ASCII
    /// digits.
    pub fn cut(s: &'a str, spans: &[(usize, usize)]) -> (name: Option<Self>)
        ensures
            name is Some <==> cut_at(s.spec_bytes(), spans@) is Some,
            name matches Some(cut) ==> Some(cut@) == cut_at(s.spec_bytes(), spans@),
    {
        let mut elements: Vec<StringElement<'a>> = Vec::new();
        let mut to_parse = s;
        let mut pos: usize = 0;
        let mut i: usize = 0;
        let ghost mut front: Seq<Token> = Seq::empty();
        assert(spans@.skip(0) =~= spans@);
        while !to_parse.is_empty() || i < spans.len()
            invariant
                i <= spans@.len(),
                front.len() == elements@.len(),
                forall|k: int| 0 <= k < front.len() ==> front[k] == (#[trigger] elements@[k])@,
                after(
                    front,
                    tokens_from(to_parse.spec_bytes(), pos as int, spans@.skip(i as int)),
                ) == cut_at(s.spec_bytes(), spans@),
            decreases spans@.len() - i, to_parse.spec_bytes().len(),
        {
            let next = if i < spans.len() {
                Some(spans[i])
            } else {
                None
            };
            let ghost bytes = to_parse.spec_bytes();
            let ghost left = spans@.skip(i as int);
            proof {
                lemma_text_has_bytes(to_parse@);
            }
            match Self::process_token(to_parse, pos, next) {
                Some((element, rest, number)) => {
                    proof {
                        let step = first_token(bytes, pos as int, next).unwrap();
                        let then = if number {
                            left.drop_first()
                        } else {
                            left
                        };
                        let tail = tokens_from(rest.spec_bytes(), pos + step.used, then);
                        assert(tokens_from(bytes, pos as int, left) == after(seq![step.token], tail));
                        if let Some(more) = tail {
                            assert(front + (seq![step.token] + more) =~= front.push(step.token)
                                + more);
                        }
                        front = front.push(step.token);
                        if number {
                            assert(left.drop_first() =~= spans@.skip(i + 1));
                        }
                    }
                    elements.push(element);
                    to_parse = rest;
                    match next {
                        Some((start, end)) => {
                            if number {
                                pos = end;
                                i += 1;
                            } else {
                                pos = start;
                            }
                        },
                        None => {},
                    }
                },
                None => {
                    return None;
                },
            }
        }
        Some(HumanString(elements))
    }

    /// Reads the run at the front of `to_parse`, which starts at byte `pos`
    /// of the name, given where the next run of digits lies. Hands out the
    /// run, what follows it, and whether the run was that run of digits.
    pub fn process_token(to_parse: &'a str, pos: usize, next: Option<(usize, usize)>) -> (read:
        Option<(StringElement<'a>, &'a str, bool)>)
        ensures
            read is Some <==> first_token(to_parse.spec_bytes(), pos as int, next) is Some,
            read matches Some((element, rest, number)) ==> {
                &&& first_token(to_parse.spec_bytes(), pos as int, next) matches Some(step)
                &&& element@ == step.token
                &&& number == step.number
                &&& rest.spec_bytes() == to_parse.spec_bytes().skip(step.used)
            },
    {
        match next {
            None => {
                let bytes = to_parse.as_bytes();
                proof {
                    encode_utf8_valid_utf8(to_parse@);
                    is_char_boundary_start_end_of_seq(to_parse.spec_bytes());
                }
                match Self::process_letters(bytes.len(), to_parse) {
                    Some((element, rest)) => {
                        assert(to_parse.spec_bytes().subrange(0, bytes@.len() as int)
                            =~= to_parse.spec_bytes());
                        Some((element, rest, false))
                    },
                    None => None,
                }
            },
            Some((start, end)) => {
                if start == pos {
                    if end < start {
                        return None;
                    }
                    match Self::process_number(end - start, to_parse) {
                        Some((element, rest)) => Some((element, rest, true)),
                        None => None,
                    }
                } else if start > pos {
                    match Self::process_letters(start - pos, to_parse) {
                        Some((element, rest)) => Some((element, rest, false)),
                        None => None,
                    }
                } else {
                    None
                }
            },
        }
    }

    /// Reads the first `end_index` bytes of `to_parse` as a run of digits.
    pub fn process_number(end_index: usize, to_parse: &'a str) -> (read: Option<
        (StringElement<'a>, &'a str),
    >)
        ensures
            read is Some <==> usable_end(to_parse.spec_bytes(), end_index as int) && all_digits(
                to_parse.spec_bytes().subrange(0, end_index as int),
            ),
            read matches Some((element, rest)) ==> {
                &&& element@ == Token::Number(
                    decimal_value(to_parse.spec_bytes().subrange(0, end_index as int)),
                )
                &&& rest.spec_bytes() == to_parse.spec_bytes().skip(end_index as int)
            },
    {
        if end_index == 0 || !to_parse.is_char_boundary(end_index) {
            return None;
        }
        proof {
            encode_utf8_valid_utf8(to_parse@);
        }
        let (prefix, suffix) = to_parse.split_at(end_index);
        if !only_digits(prefix.as_bytes()) {
            return None;
        }
        let next_token = StringElement { text: prefix, number: true };
        Some((next_token, suffix))
    }

    /// Reads the first `end_index` bytes of `to_parse` as a run of letters.
    pub fn process_letters(end_index: usize, to_parse: &'a str) -> (read: Option<
        (StringElement<'a>, &'a str),
    >)
        ensures
            read is Some <==> usable_end(to_parse.spec_bytes(), end_index as int),
            read matches Some((element, rest)) ==> {
                &&& element@ == Token::Letters(to_parse.spec_bytes().subrange(0, end_index as int))
                &&& rest.spec_bytes() == to_parse.spec_bytes().skip(end_index as int)
            },
    {
        if end_index == 0 || !to_parse.is_char_boundary(end_index) {
            return None;
        }
        proof {
            encode_utf8_valid_utf8(to_parse@);
        }
        let (prefix, suffix) = to_parse.split_at(end_index);
        let next_token = StringElement { text: prefix, number: false };
        Some((next_token, suffix))
    }

    /// How this name stands to `other`.
    pub fn compare(&self, other: &HumanString<'_>) -> (order: Option<Order>)
        ensures
            order == natural_order(self@, other@),
    {
        let n = self.0.len();
        let m = other.0.len();
        let mut i: usize = 0;
        assert(self@.skip(0) =~= self@ && other@.skip(0) =~= other@);
        while i < n && i < m
            invariant
                n == self@.len(),
                m == other@.len(),
                n == self.0@.len(),
                m == other.0@.len(),
                i <= n,
                i <= m,
                natural_order(self@, other@) == natural_order(
                    self@.skip(i as int),
                    other@.skip(i as int),
                ),
            decreases n - i,
        {
            let step = compare_elements(&self.0[i], &other.0[i]);
            match step {
                Some(Order::Equal) => {},
                _ => {
                    return step;
                },
            }
            assert(self@.skip(i as int).drop_first() =~= self@.skip(i + 1));
            assert(other@.skip(i as int).drop_first() =~= other@.skip(i + 1));
            i += 1;
        }
        if n < m {
            Some(Order::Less)
        } else if n == m {
            Some(Order::Equal)
        } else {
            Some(Order::Greater)
        }
    }
}

/// The order of the standard library that stands for `order`.
pub open spec fn std_order(order: Option<Order>) -> Option<Ordering> {
    match order {
        Some(Order::Less) => Some(Ordering::Less),
        Some(Order::Equal) => Some(Ordering::Equal),
        Some(Order::Greater) => Some(Ordering::Greater),
        None => None,
    }
}

/// The order of the standard library that stands for `order`.
pub fn to_std_order(order: Option<Order>) -> (std: Option<Ordering>)
    ensures
        std == std_order(order),
{
    match order {
        Some(Order::Less) => Some(Ordering::Less),
        Some(Order::Equal) => Some(Ordering::Equal),
        Some(Order::Greater) => Some(Ordering::Greater),
        None => None,
    }
}

impl<'a> PartialEq for HumanString<'a> {
    fn eq(&self, other: &Self) -> (equal: bool) {
        match self.compare(other) {
            Some(Order::Equal) => true,
            _ => false,
        }
    }
}

impl<'a> PartialEqSpecImpl for HumanString<'a> {
    open spec fn obeys_eq_spec() -> bool {
        true
    }

    open spec fn eq_spec(&self, other: &Self) -> bool {
        natural_order(self@, other@) == Some(Order::Equal)
    }
}

impl<'a> PartialOrd for HumanString<'a> {
    fn partial_cmp(&self, other: &Self) -> (order: Option<Ordering>) {
        to_std_order(self.compare(other))
    }
}

impl<'a> PartialOrdSpecImpl for HumanString<'a> {
    open spec fn obeys_partial_cmp_spec() -> bool {
        true
    }

    open spec fn partial_cmp_spec(&self, other: &Self) -> Option<Ordering> {
        std_order(natural_order(self@, other@))
    }
}

} // verus!
