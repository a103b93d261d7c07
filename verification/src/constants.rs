//! Fixed texts of the bot, the debounce interval, and the waifu roster.

use vstd::prelude::*;

verus! {

broadcast use vstd::string::next_postcondition, vstd::string::axiom_spec_iter;

use vstd::std_specs::iter::IteratorSpec;

pub const ADMIN_CHECK_FAIL: &'static str = "You're unathorized to access the command.";

pub const MSG_SET_WELCOME: &'static str = "I've set this channel as welcoming one.";

pub const MSG_REMOVE_WELCOME: &'static str = "This channel is no longer welcoming one.";

pub const MSG_REMOVE_SUB: &'static str = "Removed subscribtion.";

pub const MSG_ADD_SUB: &'static str = "Added subscribtion.";

pub const MSG_UNKNOWN_SUB: &'static str = "Unknown type of subscribtion, please check command help.";

/// How long persistence of the configuration is debounced, in milliseconds.
pub const CONFIG_UPDATE_INTERVAL_MS: u64 = 15 * 60 * 1000;

pub const JEANNE_GREETING: &'static str = "諸君、おはようございます";

pub const EMOJI_JEANNE_HMPH_ID: u64 = 613991053065977876;

pub const EMOJI_JEANNE_HMPH_NAME: &'static str = "JeanneHmph";

pub const EMOJI_JEANNE_SMILE_ID: u64 = 613992618208133120;

pub const EMOJI_JEANNE_SMILE_NAME: &'static str = "JeanneSmile";

/// The characters `trim` removes: the Unicode White_Space set.
pub open spec fn is_space(c: char) -> bool {
    let u = c as u32;
    (9 <= u && u <= 13) || u == 32 || u == 0x85 || u == 0xA0 || u == 0x1680 || (0x2000 <= u && u
        <= 0x200A) || u == 0x2028 || u == 0x2029 || u == 0x202F || u == 0x205F || u == 0x3000
}

/// The text without its leading whitespace.
pub open spec fn trim_start_spec(s: Seq<char>) -> Seq<char>
    decreases s.len(),
{
    if s.len() > 0 && is_space(s[0]) {
        trim_start_spec(s.drop_first())
    } else {
        s
    }
}

/// The text without its trailing whitespace.
pub open spec fn trim_end_spec(s: Seq<char>) -> Seq<char>
    decreases s.len(),
{
    if s.len() > 0 && is_space(s.last()) {
        trim_end_spec(s.drop_last())
    } else {
        s
    }
}

/// The text without leading and trailing whitespace.
pub open spec fn trim_spec(s: Seq<char>) -> Seq<char> {
    trim_end_spec(trim_start_spec(s))
}

/// A character folded to lower case when it is an ASCII letter, as a code
/// point.
pub open spec fn folded(c: char) -> u32 {
    let u = c as u32;
    if 65 <= u && u <= 90 {
        (u + 32) as u32
    } else {
        u
    }
}

/// Equality up to ASCII case.
pub open spec fn caseless_eq(a: Seq<char>, b: Seq<char>) -> bool {
    a.len() == b.len() && (forall|i: int| 0 <= i < a.len() ==> folded(a[i]) == folded(b[i]))
}

/// Collects the characters of `s`.
fn chars_vec(s: &str) -> (v: Vec<char>)
    ensures
        v@ == s@,
{
    let mut it = s.chars();
    let mut v: Vec<char> = Vec::new();
    loop
        invariant
            v@ + it.remaining() == s@,
        ensures
            v@ == s@,
        decreases s@.len() - v@.len(),
    {
        let next = it.next();
        match next {
            Some(c) => {
                v.push(c);
                proof {
                    assert(v@ + it.remaining() =~= s@);
                }
            },
            None => {
                proof {
                    assert(v@ =~= s@);
                }
                break ;
            },
        }
    }
    v
}

proof fn lemma_trim_start_skip(s: Seq<char>, i: int)
    requires
        0 <= i <= s.len(),
        forall|j: int| 0 <= j < i ==> is_space(#[trigger] s[j]),
        i == s.len() || !is_space(s[i]),
    ensures
        trim_start_spec(s) == s.skip(i),
    decreases i,
{
    if i == 0 {
        assert(s.skip(0) =~= s);
    } else {
        assert(is_space(s[0]));
        lemma_trim_start_skip(s.drop_first(), i - 1);
        assert(s.drop_first().skip(i - 1) =~= s.skip(i));
    }
}

proof fn lemma_trim_end_take(s: Seq<char>, h: int)
    requires
        0 <= h <= s.len(),
        forall|j: int| h <= j < s.len() ==> is_space(#[trigger] s[j]),
        h == 0 || !is_space(s[h - 1]),
    ensures
        trim_end_spec(s) == s.take(h),
    decreases s.len() - h,
{
    if h == s.len() {
        assert(s.take(h) =~= s);
    } else {
        assert(is_space(s.last()));
        lemma_trim_end_take(s.drop_last(), h);
        assert(s.drop_last().take(h) =~= s.take(h));
    }
}

/// The bounds of the trimmed text within `v`.
fn trimmed_range(v: &Vec<char>) -> (r: (usize, usize))
    ensures
        r.0 <= r.1 <= v@.len(),
        v@.subrange(r.0 as int, r.1 as int) == trim_spec(v@),
{
    let len = v.len();
    let mut lo: usize = 0;
    while lo < len && is_space_char(v[lo])
        invariant
            lo <= len,
            len == v@.len(),
            forall|j: int| 0 <= j < lo ==> is_space(#[trigger] v@[j]),
        decreases len - lo,
    {
        lo += 1;
    }
    let mut hi: usize = len;
    while hi > lo && is_space_char(v[hi - 1])
        invariant
            lo <= hi <= len,
            len == v@.len(),
            forall|j: int| 0 <= j < lo ==> is_space(#[trigger] v@[j]),
            forall|j: int| hi <= j < len ==> is_space(#[trigger] v@[j]),
        decreases hi,
    {
        hi -= 1;
    }
    proof {
        lemma_trim_start_skip(v@, lo as int);
        let skipped = v@.skip(lo as int);
        lemma_trim_end_take(skipped, hi - lo);
        assert(skipped.take(hi - lo) =~= v@.subrange(lo as int, hi as int));
    }
    (lo, hi)
}

fn is_space_char(c: char) -> (r: bool)
    ensures
        r == is_space(c),
{
    let u = c as u32;
    (9 <= u && u <= 13) || u == 32 || u == 0x85 || u == 0xA0 || u == 0x1680 || (0x2000 <= u && u
        <= 0x200A) || u == 0x2028 || u == 0x2029 || u == 0x202F || u == 0x205F || u == 0x3000
}

fn fold_char(c: char) -> (r: u32)
    ensures
        r == folded(c),
{
    let u = c as u32;
    if 65 <= u && u <= 90 {
        u + 32
    } else {
        u
    }
}

/// Whether the characters of `v` between `lo` and `hi` spell `name` up to
/// ASCII case.
fn matches_name(v: &Vec<char>, lo: usize, hi: usize, name: &str) -> (r: bool)
    requires
        lo <= hi <= v@.len(),
    ensures
        r == caseless_eq(v@.subrange(lo as int, hi as int), name@),
{
    let n = chars_vec(name);
    if hi - lo != n.len() {
        return false;
    }
    let mut i: usize = 0;
    while i < n.len()
        invariant
            lo <= hi <= v@.len(),
            hi - lo == n@.len(),
            i <= n@.len(),
            n@ == name@,
            forall|j: int|
                0 <= j < i ==> folded(#[trigger] v@.subrange(lo as int, hi as int)[j]) == folded(
                    n@[j],
                ),
        decreases n@.len() - i,
    {
        if fold_char(v[lo + i]) != fold_char(n[i]) {
            proof {
                assert(v@.subrange(lo as int, hi as int)[i as int] == v@[lo + i]);
            }
            return false;
        }
        i += 1;
    }
    true
}

/// The cast of selectable waifus.
#[derive(Clone, Copy, PartialEq, Eq, Structural, Debug)]
pub enum Waifu {
    Rinne,
    Jeanne,
    Reiren,
    Hinemarill,
}

/// The waifu a text names: the text with surrounding whitespace removed,
/// matched against the roster up to ASCII case.
pub open spec fn spec_waifu_from_str(s: Seq<char>) -> Option<Waifu> {
    let t = trim_spec(s);
    if caseless_eq(t, "Rinne"@) {
        Some(Waifu::Rinne)
    } else if caseless_eq(t, "Jeanne"@) {
        Some(Waifu::Jeanne)
    } else if caseless_eq(t, "Reiren"@) {
        Some(Waifu::Reiren)
    } else if caseless_eq(t, "Hinemarill"@) {
        Some(Waifu::Hinemarill)
    } else {
        None
    }
}

impl Waifu {
    /// Each waifu's name.
    pub open spec fn name(self) -> Seq<char> {
        match self {
            Waifu::Rinne => "Rinne"@,
            Waifu::Jeanne => "Jeanne"@,
            Waifu::Reiren => "Reiren"@,
            Waifu::Hinemarill => "Hinemarill"@,
        }
    }

    /// Parses a string, returning the waifu variant, if it matches any.
    pub fn from_str(text: &str) -> (r: Option<Self>)
        ensures
            r == spec_waifu_from_str(text@),
    {
        let v = chars_vec(text);
        let (lo, hi) = trimmed_range(&v);
        if matches_name(&v, lo, hi, "Rinne") {
            Some(Waifu::Rinne)
        } else if matches_name(&v, lo, hi, "Jeanne") {
            Some(Waifu::Jeanne)
        } else if matches_name(&v, lo, hi, "Reiren") {
            Some(Waifu::Reiren)
        } else if matches_name(&v, lo, hi, "Hinemarill") {
            Some(Waifu::Hinemarill)
        } else {
            None
        }
    }

    pub fn as_str(&self) -> (r: &'static str)
        ensures
            r@ == self.name(),
    {
        match self {
            Waifu::Rinne => "Rinne",
            Waifu::Jeanne => "Jeanne",
            Waifu::Reiren => "Reiren",
            Waifu::Hinemarill => "Hinemarill",
        }
    }
}

/// The phrases the bot talks with, by index.
pub open spec fn spec_jeanne_talk(i: int) -> Seq<char> {
    if i == 0 {
        "最近花琳からジャンニャの名前聞いた\n誰それは？部下中にはそんな人があったかな？"@
    } else if i == 1 {
        "カイはいつもリンネことを甘やかす\n子供か？\nええ、羨ましいですか？私！？\n花琳、何を言っている！？\n リンネがただ狡い！"@
    } else if i == 2 {
        "花琳は気になる?\n特別の関係ですか？\nまぁ長い付き合いからね...\nえええ、親子みたい！？"@
    } else if i == 3 {
        "マッサージはすき?\nまぁずっと鎧を着ているから夜で肩はいつも痛み\nだからマッサージは歓迎"@
    } else {
        "まったく、カイはいつも無茶をしてる\nなぜ私を頼ってならない？\n特別扱い？べー別にそんなつもりはない...\n指揮官にとしてそれは普通だ\n笑えない、花琳！"@
    }
}

/// The `i`-th phrase of the bot's small talk.
pub fn jeanne_talk(i: usize) -> (r: &'static str)
    requires
        i < 5,
    ensures
        r@ == spec_jeanne_talk(i as int),
{
    if i == 0 {
        "最近花琳からジャンニャの名前聞いた\n誰それは？部下中にはそんな人があったかな？"
    } else if i == 1 {
        "カイはいつもリンネことを甘やかす\n子供か？\nええ、羨ましいですか？私！？\n花琳、何を言っている！？\n リンネがただ狡い！"
    } else if i == 2 {
        "花琳は気になる?\n特別の関係ですか？\nまぁ長い付き合いからね...\nえええ、親子みたい！？"
    } else if i == 3 {
        "マッサージはすき?\nまぁずっと鎧を着ているから夜で肩はいつも痛み\nだからマッサージは歓迎"
    } else {
        "まったく、カイはいつも無茶をしてる\nなぜ私を頼ってならない？\n特別扱い？べー別にそんなつもりはない...\n指揮官にとしてそれは普通だ\n笑えない、花琳！"
    }
}

/// Relies on `rand::Rng::gen_range`: a uniform draw from the nonempty range
/// `0..n` lies below `n`.
#[verifier::external_body]
fn random_index_below(n: usize) -> (r: usize)
    requires
        n > 0,
    ensures
        r < n,
{
    rand::Rng::gen_range(&mut rand::thread_rng(), 0..n)
}

/// One of the bot's five phrases, picked at random.
pub fn get_jeanne_phrase() -> (r: &'static str)
    ensures
        exists|i: int| 0 <= i < 5 && r@ == spec_jeanne_talk(i),
{
    let i = random_index_below(5);
    let r = jeanne_talk(i);
    proof {
        assert(r@ == spec_jeanne_talk(i as int));
    }
    r
}

} // verus!
