use vstd::prelude::*;

use vstd::wrapping::u32_specs;

verus! {

/// A word-level tokenizer with the usual special ids; each word maps to an id by a
/// rolling hash.
#[derive(Debug, Clone, Copy)]
pub struct DevstralTokenizer {
    pub vocab_size: usize,
    pub bos_token_id: u32,
    pub eos_token_id: u32,
    pub pad_token_id: u32,
    pub unk_token_id: u32,
}

/// Whether `c` has the Unicode `White_Space` property, as `char::is_whitespace` decides.
pub open spec fn is_white(c: char) -> bool {
    let u = c as u32;
    (0x9 <= u <= 0xD) || u == 0x20 || u == 0x85 || u == 0xA0 || u == 0x1680 || (0x2000 <= u
        <= 0x200A) || u == 0x2028 || u == 0x2029 || u == 0x202F || u == 0x205F || u == 0x3000
}

/// The maximal runs of non-whitespace characters of `s`, in order.
pub open spec fn whitespace_words(s: Seq<char>) -> Seq<Seq<char>>
    decreases s.len(),
{
    if s.len() == 0 {
        Seq::empty()
    } else {
        let ws = whitespace_words(s.drop_last());
        let c = s.last();
        if is_white(c) {
            ws
        } else if s.len() >= 2 && !is_white(s[s.len() - 2]) {
            ws.update(ws.len() - 1, ws.last().push(c))
        } else {
            ws.push(seq![c])
        }
    }
}

/// `s` without its trailing whitespace.
pub open spec fn trim_end(s: Seq<char>) -> Seq<char>
    decreases s.len(),
{
    if s.len() > 0 && is_white(s.last()) {
        trim_end(s.drop_last())
    } else {
        s
    }
}

/// `s` without its leading whitespace.
pub open spec fn trim_start(s: Seq<char>) -> Seq<char>
    decreases s.len(),
{
    if s.len() > 0 && is_white(s[0]) {
        trim_start(s.drop_first())
    } else {
        s
    }
}

/// `s` without leading and trailing whitespace.
pub open spec fn trimmed(s: Seq<char>) -> Seq<char> {
    trim_start(trim_end(s))
}

/// Relies on `str::split_whitespace`: the words of `text`, in order.
#[verifier::external_body]
fn split_words(text: &str) -> (r: Vec<String>)
    ensures
        r@.map_values(|w: String| w@) == whitespace_words(text@),
{
    text.split_whitespace().map(String::from).collect()
}

/// Relies on `str::trim`: the text without surrounding whitespace.
#[verifier::external_body]
fn trim(s: &str) -> (r: String)
    ensures
        r@ == trimmed(s@),
{
    String::from(s.trim())
}

/// The decimal digits of `n`, most significant first, without leading zeros.
pub open spec fn decimal(n: nat) -> Seq<char>
    decreases n,
{
    if n < 10 {
        seq![digit_char(n)]
    } else {
        decimal(n / 10).push(digit_char(n % 10))
    }
}

pub open spec fn digit_char(d: nat) -> char {
    if d == 0 { '0' } else if d == 1 { '1' } else if d == 2 { '2' } else if d == 3 { '3' }
    else if d == 4 { '4' } else if d == 5 { '5' } else if d == 6 { '6' } else if d == 7 { '7' }
    else if d == 8 { '8' } else { '9' }
}

/// Appends the decimal digits of `n` to `s`.
fn push_decimal(s: &mut String, n: u32)
    ensures
        final(s)@ == old(s)@ + decimal(n as nat),
    decreases n,
{
    if n >= 10 {
        push_decimal(s, n / 10);
    }
    let d = (n % 10) as usize;
    let digits = "0123456789";
    proof {
        reveal_strlit("0123456789");
    }
    let piece = digits.substring_char(d, d + 1);
    assert(piece@ =~= seq![digit_char(d as nat)]);
    let ghost before = s@;
    s.append(piece);
    if n >= 10 {
        assert(decimal(n as nat) == decimal((n / 10) as nat).push(digit_char((n % 10) as nat)));
    }
    assert(s@ =~= old(s)@ + decimal(n as nat));
}

/// The rolling hash of a word: `h * 31 + c` over its characters, modulo 2^32.
pub open spec fn word_hash(cs: Seq<char>) -> u32
    decreases cs.len(),
{
    if cs.len() == 0 {
        0
    } else {
        u32_specs::wrapping_add(u32_specs::wrapping_mul(word_hash(cs.drop_last()), 31), cs.last() as u32)
    }
}

impl DevstralTokenizer {
    /// Whether ids past the four special ones exist.
    pub open spec fn has_word_ids(self) -> bool {
        4 < #[verifier::truncate] (self.vocab_size as u32)
    }

    /// The id of a word: past the four special ids, by its hash.
    pub open spec fn token_of(self, w: Seq<char>) -> u32 {
        (4 + (word_hash(w) as int) % ((#[verifier::truncate] (self.vocab_size as u32)) - 4)) as u32
    }

    /// What one non-special id decodes to.
    pub open spec fn piece(self, t: u32) -> Seq<char> {
        if t == self.unk_token_id {
            "<UNK>"@
        } else {
            "word_"@ + decimal(t as nat) + " "@
        }
    }

    /// Text for `ts`: the begin and padding ids are skipped, the end id stops decoding.
    pub open spec fn pieces(self, ts: Seq<u32>) -> Seq<char>
        decreases ts.len(),
    {
        if ts.len() == 0 {
            Seq::empty()
        } else if ts[0] == self.bos_token_id {
            self.pieces(ts.drop_first())
        } else if ts[0] == self.eos_token_id {
            Seq::empty()
        } else if ts[0] == self.pad_token_id {
            self.pieces(ts.drop_first())
        } else {
            self.piece(ts[0]) + self.pieces(ts.drop_first())
        }
    }

    /// A tokenizer for a vocabulary of `vocab_size` ids, with padding 0, begin 1, end 2
    /// and unknown 3.
    pub fn new(vocab_size: usize) -> (r: DevstralTokenizer)
        ensures
            r.vocab_size == vocab_size,
            r.bos_token_id == 1,
            r.eos_token_id == 2,
            r.pad_token_id == 0,
            r.unk_token_id == 3,
    {
        DevstralTokenizer { vocab_size, bos_token_id: 1, eos_token_id: 2, pad_token_id: 0, unk_token_id: 3 }
    }

    /// The id of `word`.
    pub fn word_to_token_id(&self, word: &str) -> (r: u32)
        requires
            self.has_word_ids(),
        ensures
            r == self.token_of(word@),
    {
        let n = word.unicode_len();
        let mut hash: u32 = 0;
        let mut i: usize = 0;
        while i < n
            invariant
                i <= n,
                n == word@.len(),
                hash == word_hash(word@.take(i as int)),
            decreases n - i,
        {
            let c = word.get_char(i);
            assert(word@.take(i + 1).drop_last() =~= word@.take(i as int));
            hash = hash.wrapping_mul(31).wrapping_add(c as u32);
            i = i + 1;
        }
        assert(word@.take(n as int) =~= word@);
        #[verifier::truncate]
        let v = self.vocab_size as u32;
        4 + hash % (v - 4)
    }

    /// Ids for already-split `words`: the begin id, one id per word, the end id.
    pub fn encode_words(&self, words: &Vec<String>) -> (r: Vec<u32>)
        requires
            self.has_word_ids() || words@.len() == 0,
        ensures
            r@ == seq![self.bos_token_id] + words@.map_values(|w: String| self.token_of(w@))
                + seq![self.eos_token_id],
    {
        let mut tokens: Vec<u32> = Vec::new();
        tokens.push(self.bos_token_id);
        let mut i: usize = 0;
        while i < words.len()
            invariant
                i <= words@.len(),
                self.has_word_ids() || words@.len() == 0,
                tokens@ == seq![self.bos_token_id] + words@.take(i as int).map_values(|w: String| self.token_of(w@)),
            decreases words@.len() - i,
        {
            let id = self.word_to_token_id(words[i].as_str());
            tokens.push(id);
            i = i + 1;
            assert(tokens@ =~= seq![self.bos_token_id] + words@.take(i as int).map_values(|w: String| self.token_of(w@)));
        }
        assert(words@.take(i as int) =~= words@);
        tokens.push(self.eos_token_id);
        tokens
    }

    /// Ids for `text`: the begin id, one id per whitespace-separated word, the end id.
    pub fn encode(&self, text: &str) -> (r: Vec<u32>)
        requires
            self.has_word_ids() || whitespace_words(text@).len() == 0,
        ensures
            r@ == seq![self.bos_token_id] + whitespace_words(text@).map_values(|w: Seq<char>| self.token_of(w))
                + seq![self.eos_token_id],
    {
        let words = split_words(text);
        let r = self.encode_words(&words);
        assert(words@.map_values(|w: String| self.token_of(w@)) =~= whitespace_words(text@).map_values(|w: Seq<char>| self.token_of(w)));
        r
    }

    /// Text for `tokens` before trimming.
    pub fn decode_pieces(&self, tokens: &[u32]) -> (r: String)
        ensures
            r@ == self.pieces(tokens@),
    {
        let mut result = String::new();
        let mut i: usize = 0;
        assert(tokens@.subrange(0, tokens@.len() as int) =~= tokens@);
        assert(result@ + self.pieces(tokens@) =~= self.pieces(tokens@));
        while i < tokens.len()
            invariant
                i <= tokens@.len(),
                result@ + self.pieces(tokens@.subrange(i as int, tokens@.len() as int)) == self.pieces(tokens@),
            decreases tokens@.len() - i,
        {
            let t = tokens[i];
            let ghost rest = tokens@.subrange(i + 1, tokens@.len() as int);
            assert(tokens@.subrange(i as int, tokens@.len() as int).drop_first() =~= rest);
            if t == self.bos_token_id {
            } else if t == self.eos_token_id {
                assert(result@ + Seq::<char>::empty() =~= result@);
                return result;
            } else if t == self.pad_token_id {
            } else if t == self.unk_token_id {
                let ghost before = result@;
                result.append("<UNK>");
                assert(before + (self.piece(t) + self.pieces(rest)) =~= result@ + self.pieces(rest));
            } else {
                let ghost before = result@;
                result.append("word_");
                push_decimal(&mut result, t);
                result.append(" ");
                assert(before + (self.piece(t) + self.pieces(rest)) =~= result@ + self.pieces(rest));
            }
            i = i + 1;
        }
        assert(tokens@.subrange(i as int, tokens@.len() as int) =~= Seq::<u32>::empty());
        assert(result@ + Seq::<char>::empty() =~= result@);
        result
    }

    /// Text for `tokens`: begin and padding ids skipped, decoding stopped at the end id,
    /// surrounding whitespace removed.
    pub fn decode(&self, tokens: &[u32]) -> (r: String)
        ensures
            r@ == trimmed(self.pieces(tokens@)),
    {
        let s = self.decode_pieces(tokens);
        trim(s.as_str())
    }
}

} // verus!
