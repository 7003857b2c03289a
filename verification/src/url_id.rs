//! The url id share, representing a valid shortened url object, and all
//! information related to it: the base-61 codec that turns a row id into a
//! short string, the randomized padding that hides the id's magnitude, and
//! the share record itself.
use vstd::arithmetic::div_mod::lemma_fundamental_div_mod;
use vstd::prelude::*;

use crate::common::push_char;
use crate::database::{spec_first_match_index, SearchView};

verus! {

/// The minimum length of a token, in chars. Further random chars are added
/// to a token to reach this length.
pub const TOKEN_MIN_LENGTH_CHARS: usize = 6;

/// The delimiter between the "real" encoded digits of a token and the
/// random padding. It is deliberately not a member of the alphabet.
pub const DELIM_CHAR: char = 'g';

/// The 61-character alphabet used for the base conversion, in digit order.
/// 'g' is excluded so it can serve as the padding delimiter.
pub open spec fn spec_alphabet() -> Seq<char> {
    "0123456789abcdefhijklmnopqrstuvwxyzABCDEFGHIJKLMNOPQRSTUVWXYZ"@
}

/// The alphabet as a string slice, for direct inspection.
pub fn alphabet_str() -> (s: &'static str)
    ensures
        s@ == spec_alphabet(),
{
    "0123456789abcdefhijklmnopqrstuvwxyzABCDEFGHIJKLMNOPQRSTUVWXYZ"
}

pub proof fn lemma_alphabet_len()
    ensures
        spec_alphabet().len() == 61,
{
    reveal_strlit("0123456789abcdefhijklmnopqrstuvwxyzABCDEFGHIJKLMNOPQRSTUVWXYZ");
}

/// The alphabet's characters are pairwise distinct, and the delimiter is
/// not among them.
pub proof fn lemma_alphabet_distinct()
    ensures
        spec_alphabet().len() == 61,
        forall|i: int, j: int|
            0 <= i < j < 61 ==> spec_alphabet()[i] != spec_alphabet()[j],
        forall|i: int| 0 <= i < 61 ==> spec_alphabet()[i] != DELIM_CHAR,
{
    reveal_strlit("0123456789abcdefhijklmnopqrstuvwxyzABCDEFGHIJKLMNOPQRSTUVWXYZ");
    assert(forall|i: int, j: int|
        0 <= i < j < 61 ==> spec_alphabet()[i] != spec_alphabet()[j]);
    assert(forall|i: int| 0 <= i < 61 ==> spec_alphabet()[i] != 'g');
}

/// The alphabet as a vector of chars, to be passed to the codec functions.
pub fn alphabet() -> (r: Vec<char>)
    ensures
        r@ == spec_alphabet(),
{
    proof {
        lemma_alphabet_len();
    }
    let s = alphabet_str();
    let mut r: Vec<char> = Vec::new();
    let mut i: usize = 0;
    while i < 61
        invariant
            i <= 61,
            r@.len() == i,
            s@ == spec_alphabet(),
            spec_alphabet().len() == 61,
            forall|k: int| 0 <= k < i ==> r@[k] == spec_alphabet()[k],
        decreases 61 - i,
    {
        let c = s.get_char(i);
        r.push(c);
        i += 1;
    }
    proof {
        assert(r@ =~= spec_alphabet());
    }
    r
}

/// The digit value of a character: the first index at which it occurs in
/// the alphabet, or -1 if it does not occur at all.
pub open spec fn spec_char_index(c: char, alpha: Seq<char>) -> int {
    match alpha.index_of_first(c) {
        Some(i) => i,
        None => -1,
    }
}

/// Every character of the token is a digit of the alphabet.
pub open spec fn spec_token_valid(s: Seq<char>, alpha: Seq<char>) -> bool {
    forall|k: int| 0 <= k < s.len() ==> alpha.contains(#[trigger] s[k])
}

/// The base-61 digit string of a non-negative number: most significant
/// digit first, one digit for numbers below the base.
pub open spec fn spec_encode(n: nat, alpha: Seq<char>) -> Seq<char>
    decreases n,
{
    if n < 61 {
        seq![alpha[n as int]]
    } else {
        spec_encode(n / 61, alpha).push(alpha[(n % 61) as int])
    }
}

/// The number a digit string stands for: each character contributes its
/// alphabet index, scanning left to right.
pub open spec fn spec_decode(s: Seq<char>, alpha: Seq<char>) -> int
    decreases s.len(),
{
    if s.len() == 0 {
        0
    } else {
        spec_decode(s.drop_last(), alpha) * 61 + spec_char_index(s.last(), alpha)
    }
}

pub proof fn lemma_char_index_valid(c: char, alpha: Seq<char>)
    ensures
        alpha.contains(c) ==> {
            &&& 0 <= spec_char_index(c, alpha) < alpha.len()
            &&& alpha[spec_char_index(c, alpha)] == c
        },
        !alpha.contains(c) ==> spec_char_index(c, alpha) == -1,
{
    alpha.index_of_first_ensures(c);
}

/// In an alphabet without repeated characters, the digit value of the
/// character at position d is d itself.
pub proof fn lemma_char_index_of_digit(d: int, alpha: Seq<char>)
    requires
        0 <= d < alpha.len(),
        forall|i: int, j: int|
            0 <= i < j < alpha.len() ==> alpha[i] != alpha[j],
    ensures
        spec_char_index(alpha[d], alpha) == d,
{
    alpha.index_of_first_ensures(alpha[d]);
    assert(alpha.contains(alpha[d]));
}

/// Every encoded number has at least one digit, and every digit is drawn
/// from the alphabet.
pub proof fn lemma_encode_props(n: nat, alpha: Seq<char>)
    requires
        alpha.len() >= 61,
    ensures
        spec_encode(n, alpha).len() >= 1,
        forall|k: int|
            0 <= k < spec_encode(n, alpha).len()
                ==> alpha.contains(#[trigger] spec_encode(n, alpha)[k]),
        spec_token_valid(spec_encode(n, alpha), alpha),
    decreases n,
{
    if n < 61 {
        assert(spec_encode(n, alpha)[0] == alpha[n as int]);
    } else {
        lemma_encode_props(n / 61, alpha);
        let prefix = spec_encode(n / 61, alpha);
        let whole = spec_encode(n, alpha);
        assert(whole == prefix.push(alpha[(n % 61) as int]));
        assert(forall|k: int| 0 <= k < whole.len() ==> alpha.contains(#[trigger] whole[k])) by {
            assert(forall|k: int| 0 <= k < prefix.len() ==> whole[k] == #[trigger] prefix[k]);
            assert(whole[prefix.len() as int] == alpha[(n % 61) as int]);
        }
    }
}

/// Round trip: decoding the digit string of any non-negative number
/// recovers that number, provided the alphabet has no repeated characters.
pub proof fn lemma_encode_decode(n: nat, alpha: Seq<char>)
    requires
        alpha.len() >= 61,
        forall|i: int, j: int|
            0 <= i < j < alpha.len() ==> alpha[i] != alpha[j],
    ensures
        spec_decode(spec_encode(n, alpha), alpha) == n,
    decreases n,
{
    if n < 61 {
        let s = spec_encode(n, alpha);
        assert(s.len() == 1);
        assert(s.drop_last() =~= Seq::<char>::empty());
        assert(s.last() == alpha[n as int]);
        lemma_char_index_of_digit(n as int, alpha);
        assert(spec_decode(Seq::<char>::empty(), alpha) == 0);
        assert(spec_decode(s, alpha) == spec_decode(s.drop_last(), alpha) * 61
            + spec_char_index(s.last(), alpha));
        assert(spec_decode(s, alpha) == n);
    } else {
        lemma_encode_decode(n / 61, alpha);
        let prefix = spec_encode(n / 61, alpha);
        let s = spec_encode(n, alpha);
        assert(s == prefix.push(alpha[(n % 61) as int]));
        assert(s.drop_last() =~= prefix);
        assert(s.last() == alpha[(n % 61) as int]);
        lemma_char_index_of_digit((n % 61) as int, alpha);
        assert(spec_decode(s, alpha) == spec_decode(prefix, alpha) * 61
            + spec_char_index(s.last(), alpha));
        lemma_fundamental_div_mod(n as int, 61);
        assert(spec_decode(s, alpha) == n);
    }
}

/// Round trip over the crate's own alphabet: decoding the digit string of
/// any non-negative id recovers that id.
pub proof fn lemma_base_conversion_round_trip(id: int)
    requires
        0 <= id,
    ensures
        spec_decode(spec_encode(id as nat, spec_alphabet()), spec_alphabet()) == id,
{
    lemma_alphabet_distinct();
    lemma_encode_decode(id as nat, spec_alphabet());
}

/// Decoding the non-padding segment of a generated token — the part left
/// of the delimiter — recovers the id the token was generated for.
pub proof fn lemma_generated_token_decodes(t: Seq<char>, id: int)
    requires
        0 <= id,
        spec_token_prefix(t, DELIM_CHAR) == spec_encode(id as nat, spec_alphabet()),
    ensures
        spec_decode(spec_token_prefix(t, DELIM_CHAR), spec_alphabet()) == id,
{
    lemma_base_conversion_round_trip(id);
}

/// Stepping a decode one character forward multiplies by the base and adds
/// the new digit.
pub proof fn lemma_decode_take_succ(s: Seq<char>, alpha: Seq<char>, j: int)
    requires
        0 <= j < s.len(),
    ensures
        spec_decode(s.take(j + 1), alpha) == spec_decode(s.take(j), alpha) * 61
            + spec_char_index(s[j], alpha),
{
    assert(s.take(j + 1).drop_last() =~= s.take(j));
    assert(s.take(j + 1).last() == s[j]);
}

pub proof fn lemma_decode_nonneg(s: Seq<char>, alpha: Seq<char>)
    requires
        spec_token_valid(s, alpha),
    ensures
        spec_decode(s, alpha) >= 0,
    decreases s.len(),
{
    if s.len() > 0 {
        assert(spec_token_valid(s.drop_last(), alpha)) by {
            assert(forall|k: int|
                0 <= k < s.len() - 1 ==> s.drop_last()[k] == #[trigger] s[k]);
        }
        lemma_decode_nonneg(s.drop_last(), alpha);
        lemma_char_index_valid(s.last(), alpha);
        assert(alpha.contains(s[s.len() - 1]));
    }
}

/// A prefix of a valid token never decodes to more than the whole token.
pub proof fn lemma_decode_prefix_le(s: Seq<char>, alpha: Seq<char>, j: int)
    requires
        spec_token_valid(s, alpha),
        0 <= j <= s.len(),
    ensures
        spec_decode(s.take(j), alpha) <= spec_decode(s, alpha),
    decreases s.len() - j,
{
    if j == s.len() {
        assert(s.take(j) =~= s);
    } else {
        assert(spec_token_valid(s.take(j), alpha)) by {
            assert(forall|k: int| 0 <= k < j ==> s.take(j)[k] == #[trigger] s[k]);
        }
        lemma_decode_take_succ(s, alpha, j);
        lemma_decode_nonneg(s.take(j), alpha);
        lemma_char_index_valid(s[j], alpha);
        assert(alpha.contains(s[j]));
        lemma_decode_prefix_le(s, alpha, j + 1);
    }
}

/// Find position of a char in the alphabet: the first index holding it, or
/// None when the char is not an alphabet digit.
pub fn get_char_position(letter: char, alphabet: &[char]) -> (r: Option<usize>)
    ensures
        r is Some <==> alphabet@.contains(letter),
        r matches Some(i) ==> i as int == spec_char_index(letter, alphabet@)
            && i < alphabet@.len(),
{
    proof {
        alphabet@.index_of_first_ensures(letter);
    }
    let n = alphabet.len();
    let mut counter: usize = 0;
    while counter < n
        invariant
            n == alphabet@.len(),
            counter <= n,
            forall|k: int| 0 <= k < counter ==> alphabet@[k] != letter,
            alphabet@.index_of_first(letter) matches Some(i)
                ==> 0 <= i < alphabet@.len() && alphabet@[i] == letter
                && forall|j: int| 0 <= j < i ==> alphabet@[j] != letter,
            !alphabet@.contains(letter) ==> alphabet@.index_of_first(letter) is None,
            alphabet@.contains(letter) ==> alphabet@.index_of_first(letter) is Some,
        decreases n - counter,
    {
        let comp = *vstd::slice::slice_index_get(alphabet, counter);
        if letter == comp {
            assert(alphabet@.contains(letter));
            return Some(counter);
        }
        counter += 1;
    }
    assert(!alphabet@.contains(letter)) by {
        if alphabet@.contains(letter) {
            let w = choose|k: int| 0 <= k < alphabet@.len() && alphabet@[k] == letter;
            assert(alphabet@[w] != letter);
        }
    }
    None
}

/// An enum representing the error states that can occur with UrlID.
#[derive(Debug, Clone, PartialEq, Eq)]
pub enum UrlIDError {
    ContentType,
    TooLarge,
    ServerError(String),
    ParseFailure(String),
    IdError,
    NoToken,
    DatabaseError(String),
}

impl UrlIDError {
    /// A human-readable message for each error state.
    pub fn message(&self) -> (r: String)
        ensures
            r@ == self.spec_message(),
    {
        match self {
            UrlIDError::ContentType => String::from_str(
                "incorrect content-type provided on request",
            ),
            UrlIDError::TooLarge => String::from_str("request payload too large"),
            UrlIDError::ServerError(e) => e.clone(),
            UrlIDError::ParseFailure(e) => e.clone(),
            UrlIDError::IdError => String::from_str(
                "attempted to access id, but was none value",
            ),
            UrlIDError::NoToken => String::from_str(
                "attempted to access an inaccessible token",
            ),
            UrlIDError::DatabaseError(e) => e.clone(),
        }
    }

    pub open spec fn spec_message(&self) -> Seq<char> {
        match self {
            UrlIDError::ContentType => "incorrect content-type provided on request"@,
            UrlIDError::TooLarge => "request payload too large"@,
            UrlIDError::ServerError(e) => e@,
            UrlIDError::ParseFailure(e) => e@,
            UrlIDError::IdError => "attempted to access id, but was none value"@,
            UrlIDError::NoToken => "attempted to access an inaccessible token"@,
            UrlIDError::DatabaseError(e) => e@,
        }
    }

    /// The http status the error maps to at the request boundary: a
    /// client-side 4xx for problems with the request itself, a 5xx for
    /// everything that went wrong on this side.
    pub fn status_code(&self) -> (r: u16)
        ensures
            r == self.spec_status_code(),
    {
        match self {
            UrlIDError::ContentType => 415,
            UrlIDError::TooLarge => 413,
            UrlIDError::ParseFailure(_) => 400,
            UrlIDError::ServerError(_) => 500,
            UrlIDError::IdError => 500,
            UrlIDError::NoToken => 500,
            UrlIDError::DatabaseError(_) => 500,
        }
    }

    pub open spec fn spec_status_code(&self) -> u16 {
        match self {
            UrlIDError::ContentType => 415u16,
            UrlIDError::TooLarge => 413u16,
            UrlIDError::ParseFailure(_) => 400u16,
            UrlIDError::ServerError(_) => 500u16,
            UrlIDError::IdError => 500u16,
            UrlIDError::NoToken => 500u16,
            UrlIDError::DatabaseError(_) => 500u16,
        }
    }
}

/// Convert a base 10 number to its base 61 digit string.
///
/// Every character of the result is drawn from the alphabet, so the result
/// never contains the padding delimiter.
pub fn base_10_to_61(id: i64, alphabet: &[char]) -> (r: String)
    requires
        id >= 0,
        alphabet@.len() == 61,
    ensures
        r@ == spec_encode(id as nat, alphabet@),
        r@.len() >= 1,
        spec_token_valid(r@, alphabet@),
    decreases id,
{
    proof {
        lemma_encode_props(id as nat, alphabet@);
    }
    if id < 61 {
        let c = *vstd::slice::slice_index_get(alphabet, id as usize);
        let mut result = String::new();
        push_char(&mut result, c);
        proof {
            assert(result@ =~= spec_encode(id as nat, alphabet@));
        }
        result
    } else {
        let mut result = base_10_to_61(id / 61, alphabet);
        let c = *vstd::slice::slice_index_get(alphabet, (id % 61) as usize);
        push_char(&mut result, c);
        proof {
            assert((id / 61) as nat == (id as nat) / 61);
            assert((id % 61) as nat == (id as nat) % 61);
        }
        result
    }
}

/// Convert a base 61 digit string back to a base 10 number.
///
/// Returns `ParseFailure` when a character is not an alphabet digit, or
/// when the value does not fit the integer width.
pub fn base_61_to_10(token: String, alpha: &[char]) -> (r: Result<i64, UrlIDError>)
    requires
        alpha@.len() == 61,
    ensures
        r is Ok <==> spec_token_valid(token@, alpha@)
            && spec_decode(token@, alpha@) <= i64::MAX,
        r matches Ok(v) ==> v == spec_decode(token@, alpha@),
        r matches Err(e) ==> e is ParseFailure,
{
    let n = token.as_str().unicode_len();
    let mut result: i64 = 0;
    let mut counter: usize = 0;
    while counter < n
        invariant
            n == token@.len(),
            counter <= n,
            alpha@.len() == 61,
            spec_token_valid(token@.take(counter as int), alpha@),
            result == spec_decode(token@.take(counter as int), alpha@),
            result >= 0,
        decreases n - counter,
    {
        let c = token.as_str().get_char(counter);
        proof {
            assert(token@.take(counter as int + 1)[counter as int] == token@[counter as int]);
            assert(forall|k: int|
                0 <= k < counter ==> token@.take(counter as int + 1)[k]
                    == #[trigger] token@.take(counter as int)[k]);
        }
        let position = match get_char_position(c, alpha) {
            Some(p) => p,
            None => {
                proof {
                    assert(!alpha@.contains(token@[counter as int]));
                    assert(!spec_token_valid(token@, alpha@));
                }
                return Err(UrlIDError::ParseFailure(String::from_str(
                    "token contains a character outside the alphabet",
                )));
            },
        };
        proof {
            lemma_decode_take_succ(token@, alpha@, counter as int);
            assert(spec_token_valid(token@.take(counter as int + 1), alpha@));
        }
        let scaled = match result.checked_mul(61) {
            Some(s) => s,
            None => {
                proof {
                    lemma_overflow_means_too_large(token@, alpha@, counter as int);
                }
                return Err(UrlIDError::ParseFailure(String::from_str(
                    "token encodes a value out of range",
                )));
            },
        };
        let next = match scaled.checked_add(position as i64) {
            Some(a) => a,
            None => {
                proof {
                    lemma_overflow_means_too_large(token@, alpha@, counter as int);
                }
                return Err(UrlIDError::ParseFailure(String::from_str(
                    "token encodes a value out of range",
                )));
            },
        };
        result = next;
        counter += 1;
    }
    proof {
        assert(token@.take(n as int) =~= token@);
    }
    Ok(result)
}

/// If the decode of some strict prefix extended by one more digit exceeds
/// the integer range, then the decode of the whole token does too.
proof fn lemma_overflow_means_too_large(s: Seq<char>, alpha: Seq<char>, j: int)
    requires
        0 <= j < s.len(),
        alpha.contains(s[j]),
        spec_decode(s.take(j), alpha) * 61 + spec_char_index(s[j], alpha) > i64::MAX,
    ensures
        spec_token_valid(s, alpha) ==> spec_decode(s, alpha) > i64::MAX,
{
    if spec_token_valid(s, alpha) {
        lemma_decode_take_succ(s, alpha, j);
        lemma_decode_prefix_le(s, alpha, j + 1);
    }
}

/// The part of a token that stands left of the first delimiter: the real
/// encoded digits, as opposed to the random padding.
pub open spec fn spec_token_prefix(s: Seq<char>, delim: char) -> Seq<char> {
    match s.index_of_first(delim) {
        Some(i) => s.take(i),
        None => s,
    }
}

/// A token without any delimiter is all prefix.
pub proof fn lemma_token_prefix_no_delim(s: Seq<char>, delim: char)
    requires
        !s.contains(delim),
    ensures
        spec_token_prefix(s, delim) == s,
{
    s.index_of_first_ensures(delim);
}

/// Appending the delimiter and arbitrary padding to a delimiter-free digit
/// string leaves exactly that digit string as the token's prefix.
pub proof fn lemma_token_prefix_of_padded(digits: Seq<char>, pad: Seq<char>, delim: char)
    requires
        !digits.contains(delim),
    ensures
        spec_token_prefix(digits + seq![delim] + pad, delim) == digits,
{
    let s = digits + seq![delim] + pad;
    assert(s[digits.len() as int] == delim);
    assert(s.contains(delim));
    s.index_of_first_ensures(delim);
    let i = s.index_of_first(delim).unwrap();
    assert(forall|k: int| 0 <= k < digits.len() ==> s[k] == #[trigger] digits[k]);
    if i < digits.len() {
        assert(digits.contains(digits[i]));
    }
    assert(i == digits.len());
    assert(s.take(i) =~= digits);
}

/// Relies on rand::thread_rng and rand::Rng::gen_range: a random index
/// strictly below the bound. The draw depends on the generator's state, so
/// nothing beyond the range is promised.
#[verifier::external_body]
fn random_index(bound: usize) -> (r: usize)
    requires
        bound > 0,
    ensures
        r < bound,
{
    rand::Rng::gen_range(&mut rand::thread_rng(), 0..bound)
}

/// Add extra length to a string if it doesn't meet the minimum length.
///
/// A short input is extended by the delimiter and then by random alphabet
/// characters until the minimum length is reached; a long enough input is
/// returned unchanged.
pub fn normalize_length(input: String, min_length: usize, alphabet: &[char], delim: char) -> (r:
    String)
    requires
        alphabet@.len() == 61,
    ensures
        input@.len() >= min_length ==> r@ == input@,
        input@.len() < min_length ==> {
            &&& r@.len() == min_length
            &&& r@ == input@ + seq![delim] + r@.skip(input@.len() as int + 1)
            &&& spec_token_valid(r@.skip(input@.len() as int + 1), alphabet@)
        },
        r@.len() >= min_length || r@ == input@,
{
    let ghost initial = input@;
    let mut result = input;
    let len0 = result.as_str().unicode_len();
    if len0 < min_length {
        push_char(&mut result, delim);
        let mut have: usize = len0 + 1;
        while have < min_length
            invariant
                alphabet@.len() == 61,
                have == result@.len(),
                len0 + 1 <= have <= min_length,
                len0 == initial.len(),
                forall|k: int| 0 <= k < len0 ==> result@[k] == #[trigger] initial[k],
                result@[len0 as int] == delim,
                forall|k: int|
                    len0 + 1 <= k < have ==> alphabet@.contains(#[trigger] result@[k]),
            decreases min_length - have,
        {
            let idx = random_index(61);
            let c = *vstd::slice::slice_index_get(alphabet, idx);
            push_char(&mut result, c);
            proof {
                assert(alphabet@.contains(alphabet@[idx as int]));
            }
            have += 1;
        }
        proof {
            let pad = result@.skip(len0 as int + 1);
            assert(forall|k: int|
                0 <= k < pad.len()
                    ==> alphabet@.contains(#[trigger] pad[k])) by {
                assert(forall|k: int|
                    0 <= k < pad.len() ==> #[trigger] pad[k] == result@[k + len0 + 1]);
            }
            assert(result@ =~= initial + seq![delim] + pad);
        }
    }
    result
}

/// The domain under which shortened links are served.
pub open spec fn spec_server_domain() -> Seq<char> {
    "127.0.0.1:8000"@
}

pub fn server_domain() -> (s: &'static str)
    ensures
        s@ == spec_server_domain(),
{
    "127.0.0.1:8000"
}

/// The full short link for a token.
pub open spec fn spec_shortened_link(token: Seq<char>) -> Seq<char> {
    "http://"@ + spec_server_domain() + "/"@ + token
}

/// The view of an optional string: its characters, when present.
pub open spec fn opt_str_view(o: Option<String>) -> Option<Seq<char>> {
    match o {
        Some(s) => Some(s@),
        None => None,
    }
}

/// A UrlID before it has been committed to the database: the payload of a
/// create request, after its optional fields have been defaulted.
pub struct UncommittedUrlID {
    pub url: String,
    pub exp: Option<i64>,
    pub crt: Option<i64>,
}

impl UncommittedUrlID {
    /// Build the payload of a create request: a missing expiry defaults to
    /// the never-expire sentinel, and the creation time is set to now.
    pub fn from_request(url: String, exp: Option<i64>, now: i64) -> (r: UncommittedUrlID)
        ensures
            r.url@ == url@,
            r.exp == Some(if exp is Some { exp.unwrap() } else { i64::MAX }),
            r.crt == Some(now),
    {
        let exp_value = match exp {
            Some(e) => e,
            None => i64::MAX,
        };
        UncommittedUrlID { url, exp: Some(exp_value), crt: Some(now) }
    }

    /// Get the destination url of this shortened link.
    pub fn get_dest_url(&self) -> (r: &str)
        ensures
            r@ == self.url@,
    {
        self.url.as_str()
    }

    /// Get the time that this shortened link will expire.
    pub fn get_exp(&self) -> (r: i64)
        requires
            self.exp is Some,
        ensures
            r == self.exp.unwrap(),
    {
        match &self.exp {
            Some(e) => *e,
            None => 0,
        }
    }

    /// Get the time this shortened link was created.
    pub fn get_crt(&self) -> (r: i64)
        requires
            self.crt is Some,
        ensures
            r == self.crt.unwrap(),
    {
        match &self.crt {
            Some(c) => *c,
            None => 0,
        }
    }
}

/// The mathematical content of one share record: what the record says,
/// independent of how its strings are stored.
pub struct ShareView {
    pub id: Option<i64>,
    pub exp: i64,
    pub crt: i64,
    pub url: Seq<char>,
    pub expired: bool,
    pub token: Option<Seq<char>>,
}

/// This struct represents a valid url ID: one shortened-url record.
#[derive(Debug)]
pub struct UrlID {
    /// ID, assigned by the store on insert; None before that.
    pub id: Option<i64>,
    /// When this url expires, in epoch seconds; i64::MAX means never.
    pub exp: i64,
    /// When this url was created, in epoch seconds.
    pub crt: i64,
    /// Url this redirects to.
    pub url: String,
    /// Has this share been explicitly deactivated.
    pub expired: bool,
    /// The token that the shortened url uses; None until generated.
    pub token: Option<String>,
}

impl View for UrlID {
    type V = ShareView;

    open spec fn view(&self) -> ShareView {
        ShareView {
            id: self.id,
            exp: self.exp,
            crt: self.crt,
            url: self.url@,
            expired: self.expired,
            token: opt_str_view(self.token),
        }
    }
}

impl DeepView for UrlID {
    type V = ShareView;

    open spec fn deep_view(&self) -> ShareView {
        self@
    }
}

impl Clone for UrlID {
    fn clone(&self) -> (r: Self)
        ensures
            r@ == self@,
    {
        UrlID {
            id: self.id,
            exp: self.exp,
            crt: self.crt,
            url: self.url.clone(),
            expired: self.expired,
            token: match &self.token {
                Some(t) => Some(t.clone()),
                None => None,
            },
        }
    }
}

impl Default for UrlID {
    /// A fresh record: no id, never expires, created now, empty url.
    fn default() -> (r: Self)
        ensures
            r.id is None,
            r.exp == i64::MAX,
            r.crt >= 0,
            r.url@ == Seq::<char>::empty(),
            !r.expired,
            r.token is None,
    {
        UrlID {
            id: None,
            exp: i64::MAX,
            crt: crate::common::get_time_seconds(),
            url: String::new(),
            expired: false,
            token: None,
        }
    }
}

impl UrlID {
    pub fn new(url: &str) -> (r: Self)
        ensures
            r.id is None,
            r.exp == i64::MAX,
            r.crt >= 0,
            r.url@ == url@,
            !r.expired,
            r.token is None,
    {
        let mut def = Self::default();
        def.url = url.to_owned();
        def
    }

    /// Set the expiry, can be chained.
    pub fn set_exp(self, exp: &i64) -> (r: Self)
        ensures
            r == (UrlID { exp: *exp, ..self }),
    {
        let mut this = self;
        this.exp = *exp;
        this
    }

    /// Set the destination url, can be chained.
    pub fn set_dest_url(self, url: &str) -> (r: Self)
        ensures
            r.url@ == url@,
            r == (UrlID { url: r.url, ..self }),
    {
        let mut this = self;
        this.url = url.to_owned();
        this
    }

    /// Get the destination url of this shortened link.
    pub fn get_dest_url(&self) -> (r: &str)
        ensures
            r@ == self.url@,
    {
        self.url.as_str()
    }

    /// Get the time that this shortened link will expire.
    pub fn get_exp(&self) -> (r: &i64)
        ensures
            *r == self.exp,
    {
        &self.exp
    }

    /// Get the time this shortened link was created.
    pub fn get_crt(&self) -> (r: &i64)
        ensures
            *r == self.crt,
    {
        &self.crt
    }

    /// Has this share been explicitly deactivated.
    pub fn is_expired(&self) -> (r: &bool)
        ensures
            *r == self.expired,
    {
        &self.expired
    }

    /// Get the ID associated with this shortened url.
    pub fn get_id(&self) -> (r: &Option<i64>)
        ensures
            *r == self.id,
    {
        &self.id
    }

    /// Generates the unique identifier representing this shortened url and
    /// persists it: encode the record's id, pad the digits up to the
    /// minimum token length, and write the tokenized record back to the
    /// store. Generation without persistence is not a complete operation,
    /// so a record that cannot be written back is surfaced as an error.
    pub fn generate_token(self, conn: &mut crate::database::Database) -> (r: Result<
        UrlID,
        UrlIDError,
    >)
        requires
            old(conn).wf(),
            self.id matches Some(i) ==> i >= 0,
        ensures
            final(conn).wf(),
            self.id is None ==> r == Err::<UrlID, UrlIDError>(UrlIDError::IdError)
                && *final(conn) == *old(conn),
            r is Ok <==> (self.id matches Some(i) && spec_first_match_index(
                old(conn).shares_view(),
                SearchView::Id(i),
            ) >= 0),
            r matches Err(e) ==> *final(conn) == *old(conn) && (e is IdError
                || e is DatabaseError),
            r matches Ok(u) ==> {
                &&& u@ == (ShareView { token: u@.token, ..self@ })
                &&& u@.token matches Some(t) && spec_token_prefix(t, DELIM_CHAR)
                    == spec_encode(self.id.unwrap() as nat, spec_alphabet())
                &&& u@.token.unwrap().len() >= TOKEN_MIN_LENGTH_CHARS
                &&& spec_encode(self.id.unwrap() as nat, spec_alphabet()).len()
                    >= TOKEN_MIN_LENGTH_CHARS ==> u@.token == Some(
                    spec_encode(self.id.unwrap() as nat, spec_alphabet()),
                )
                &&& spec_encode(self.id.unwrap() as nat, spec_alphabet()).len()
                    < TOKEN_MIN_LENGTH_CHARS ==> u@.token.unwrap().len()
                    == TOKEN_MIN_LENGTH_CHARS
                &&& final(conn).shares_view() == old(conn).shares_view().update(
                    spec_first_match_index(
                        old(conn).shares_view(),
                        SearchView::Id(self.id.unwrap()),
                    ),
                    u@,
                )
                &&& final(conn).next_share_id == old(conn).next_share_id
                &&& final(conn).users == old(conn).users
                &&& final(conn).next_user_id == old(conn).next_user_id
            },
    {
        let id = match &self.id {
            Some(i) => *i,
            None => {
                return Err(UrlIDError::IdError);
            },
        };
        let alpha = alphabet();
        proof {
            lemma_alphabet_len();
        }
        let core = base_10_to_61(id, alpha.as_slice());
        let ghost enc = core@;
        let token = normalize_length(
            core,
            TOKEN_MIN_LENGTH_CHARS,
            alpha.as_slice(),
            DELIM_CHAR,
        );
        proof {
            lemma_alphabet_distinct();
            assert(!enc.contains(DELIM_CHAR)) by {
                if enc.contains(DELIM_CHAR) {
                    let k = choose|k: int| 0 <= k < enc.len() && enc[k] == DELIM_CHAR;
                    assert(spec_alphabet().contains(enc[k]));
                    let d = choose|d: int|
                        0 <= d < spec_alphabet().len() && spec_alphabet()[d] == enc[k];
                }
            }
            if enc.len() >= TOKEN_MIN_LENGTH_CHARS {
                lemma_token_prefix_no_delim(token@, DELIM_CHAR);
            } else {
                lemma_token_prefix_of_padded(
                    enc,
                    token@.skip(enc.len() as int + 1),
                    DELIM_CHAR,
                );
            }
        }
        let mut tokenized = self;
        tokenized.token = Some(token);
        let returned = tokenized.clone();
        let ghost target_index = spec_first_match_index(
            conn.shares_view(),
            SearchView::Id(id),
        );
        match crate::database::update_share_database(
            conn,
            crate::database::Search::Id(id),
            tokenized,
        ) {
            Ok(u) => {
                proof {
                    crate::database::lemma_first_match_index_props(
                        old(conn).shares_view(),
                        SearchView::Id(id),
                    );
                    assert(old(conn).shares_view()[target_index].id == Some(id));
                }
                let _ = u;
                Ok(returned)
            },
            Err(e) => Err(e.into_url_id_error()),
        }
    }

    /// Get the token of this share, or `NoToken` when none has been
    /// generated yet.
    pub fn get_token(&self) -> (r: Result<String, UrlIDError>)
        ensures
            r is Ok <==> self.token is Some,
            r matches Ok(t) ==> t@ == self.token.unwrap()@,
            r is Err ==> r == Err::<String, UrlIDError>(UrlIDError::NoToken),
    {
        match &self.token {
            Some(token) => Ok(token.clone()),
            None => Err(UrlIDError::NoToken),
        }
    }

    /// Get the shortened link associated with this URL; an error when the
    /// token has not been generated yet.
    pub fn get_shortened_link(&self) -> (r: Result<String, UrlIDError>)
        ensures
            r is Ok <==> self.token is Some,
            r matches Ok(s) ==> s@ == spec_shortened_link(self.token.unwrap()@),
            r is Err ==> r == Err::<String, UrlIDError>(UrlIDError::NoToken),
    {
        let token = match &self.token {
            Some(t) => t,
            None => {
                return Err(UrlIDError::NoToken);
            },
        };
        let mut link = String::from_str("http://");
        link.append(server_domain());
        link.append("/");
        link.append(token.as_str());
        Ok(link)
    }
}

} // verus!
