//! Byte-level searching and splitting, UTF-8 decoding and decimal rendering.
use vstd::prelude::*;
use vstd::utf8::*;

verus! {

/// `pat` occurs in `s` starting at index `i`.
pub open spec fn occurs_at(s: Seq<u8>, pat: Seq<u8>, i: int) -> bool {
    0 <= i && i + pat.len() <= s.len() && s.subrange(i, i + pat.len()) == pat
}

/// The index of the leftmost occurrence of `pat` in `s` that starts at or after `from`.
pub open spec fn find_from(s: Seq<u8>, pat: Seq<u8>, from: int) -> Option<int>
    decreases s.len() - from,
{
    if from < 0 || from + pat.len() > s.len() {
        None
    } else if occurs_at(s, pat, from) {
        Some(from)
    } else if from < s.len() {
        find_from(s, pat, from + 1)
    } else {
        None
    }
}

/// `pat` occurs somewhere in `s`.
pub open spec fn contains_seq(s: Seq<u8>, pat: Seq<u8>) -> bool {
    exists|i: int| occurs_at(s, pat, i)
}

/// What `find_from` returns: the leftmost occurrence at or after `from`.
pub proof fn lemma_find_from(s: Seq<u8>, pat: Seq<u8>, from: int)
    requires
        0 <= from,
    ensures
        find_from(s, pat, from) matches Some(i) ==> {
            &&& from <= i
            &&& occurs_at(s, pat, i)
            &&& forall|j: int| from <= j < i ==> !occurs_at(s, pat, j)
        },
        find_from(s, pat, from) is None ==> forall|j: int| from <= j ==> !occurs_at(s, pat, j),
    decreases s.len() - from,
{
    if from + pat.len() > s.len() {
    } else if occurs_at(s, pat, from) {
    } else if from < s.len() {
        lemma_find_from(s, pat, from + 1);
    } else {
        assert(pat.len() == 0);
        assert(s.subrange(from, from + pat.len()) =~= pat);
    }
}

/// `contains_seq` holds exactly when a search from the start finds something.
pub proof fn lemma_contains_iff_found(s: Seq<u8>, pat: Seq<u8>)
    ensures
        contains_seq(s, pat) <==> find_from(s, pat, 0) is Some,
{
    lemma_find_from(s, pat, 0);
    if let Some(i) = find_from(s, pat, 0) {
        assert(occurs_at(s, pat, i));
    }
}

/// Whether `pat` occurs in `s` at index `i`.
pub fn occurs_at_exec(s: &[u8], pat: &[u8], i: usize) -> (r: bool)
    ensures
        r == occurs_at(s@, pat@, i as int),
{
    if i > s.len() || pat.len() > s.len() - i {
        return false;
    }
    let mut k: usize = 0;
    while k < pat.len()
        invariant
            i + pat.len() <= s.len(),
            k <= pat.len(),
            forall|j: int| 0 <= j < k ==> s@[i + j] == pat@[j],
        decreases pat.len() - k,
    {
        if s[i + k] != pat[k] {
            assert(s@.subrange(i as int, i + pat.len())[k as int] != pat@[k as int]);
            return false;
        }
        k = k + 1;
    }
    assert(s@.subrange(i as int, i + pat.len()) =~= pat@);
    true
}

/// The leftmost occurrence of `pat` in `s` at or after `from`.
pub fn find_bytes(s: &[u8], pat: &[u8], from: usize) -> (r: Option<usize>)
    ensures
        match r {
            Some(i) => find_from(s@, pat@, from as int) == Some(i as int),
            None => find_from(s@, pat@, from as int) is None,
        },
{
    let mut i = from;
    while i <= s.len() && pat.len() <= s.len() - i
        invariant
            from <= i,
            forall|j: int| from <= j < i ==> !occurs_at(s@, pat@, j),
            find_from(s@, pat@, from as int) == find_from(s@, pat@, i as int),
        decreases s.len() - i + 1,
    {
        if occurs_at_exec(s, pat, i) {
            return Some(i);
        }
        if i == s.len() {
            proof {
                assert(pat@.len() == 0);
                assert(s@.subrange(i as int, i as int) =~= pat@);
            }
            return None;
        }
        i = i + 1;
    }
    None
}

/// The pieces of `s[start..]` between the occurrences of the nonempty separator `sep`,
/// searched from left to right without overlap.
pub open spec fn split_from(s: Seq<u8>, sep: Seq<u8>, start: int) -> Seq<Seq<u8>>
    decreases s.len() - start,
{
    if sep.len() == 0 || start < 0 || start > s.len() {
        seq![s.subrange(start, s.len() as int)]
    } else {
        match find_from(s, sep, start) {
            Some(i) => if start <= i && i + sep.len() <= s.len() {
                seq![s.subrange(start, i)] + split_from(s, sep, i + sep.len())
            } else {
                seq![s.subrange(start, s.len() as int)]
            },
            None => seq![s.subrange(start, s.len() as int)],
        }
    }
}

/// The pieces of `s` between the occurrences of the nonempty separator `sep`.
pub open spec fn split_seq(s: Seq<u8>, sep: Seq<u8>) -> Seq<Seq<u8>> {
    split_from(s, sep, 0)
}

/// Pieces joined back with the separator between each two of them.
pub open spec fn join_with(pieces: Seq<Seq<u8>>, sep: Seq<u8>) -> Seq<u8>
    decreases pieces.len(),
{
    if pieces.len() == 0 {
        Seq::empty()
    } else if pieces.len() == 1 {
        pieces[0]
    } else {
        pieces[0] + sep + join_with(pieces.drop_first(), sep)
    }
}

/// Splitting at a nonempty separator and joining back gives the text again, and no piece
/// holds the separator.
pub proof fn lemma_split_join(s: Seq<u8>, sep: Seq<u8>, start: int)
    requires
        0 <= start <= s.len(),
        sep.len() > 0,
    ensures
        split_from(s, sep, start).len() >= 1,
        join_with(split_from(s, sep, start), sep) == s.subrange(start, s.len() as int),
        forall|k: int|
            0 <= k < split_from(s, sep, start).len() ==> !contains_seq(
                #[trigger] split_from(s, sep, start)[k],
                sep,
            ),
    decreases s.len() - start,
{
    lemma_find_from(s, sep, start);
    match find_from(s, sep, start) {
        Some(i) => {
            let piece = s.subrange(start, i);
            let rest = split_from(s, sep, i + sep.len());
            lemma_split_join(s, sep, i + sep.len());
            assert(split_from(s, sep, start) == seq![piece] + rest);
            assert((seq![piece] + rest).drop_first() =~= rest);
            assert(occurs_at(s, sep, i));
            assert(s.subrange(i, i + sep.len()) == sep);
            assert(join_with(seq![piece] + rest, sep) == piece + sep + join_with(rest, sep));
            assert(piece + sep + s.subrange(i + sep.len(), s.len() as int) =~= s.subrange(
                start,
                s.len() as int,
            ));
            assert forall|k: int|
                0 <= k < split_from(s, sep, start).len() implies !contains_seq(
                #[trigger] split_from(s, sep, start)[k],
                sep,
            ) by {
                if k == 0 {
                    if contains_seq(piece, sep) {
                        let j = choose|j: int| occurs_at(piece, sep, j);
                        assert(s.subrange(start + j, start + j + sep.len()) =~= piece.subrange(
                            j,
                            j + sep.len(),
                        ));
                        assert(occurs_at(s, sep, start + j));
                    }
                } else {
                    assert(split_from(s, sep, start)[k] == rest[k - 1]);
                }
            }
        },
        None => {
            let piece = s.subrange(start, s.len() as int);
            assert forall|k: int|
                0 <= k < split_from(s, sep, start).len() implies !contains_seq(
                #[trigger] split_from(s, sep, start)[k],
                sep,
            ) by {
                if contains_seq(piece, sep) {
                    let j = choose|j: int| occurs_at(piece, sep, j);
                    assert(s.subrange(start + j, start + j + sep.len()) =~= piece.subrange(
                        j,
                        j + sep.len(),
                    ));
                    assert(occurs_at(s, sep, start + j));
                }
            }
        },
    }
}

/// A copy of `s[from..to]`.
pub fn copy_range(s: &[u8], from: usize, to: usize) -> (r: Vec<u8>)
    requires
        from <= to <= s.len(),
    ensures
        r@ == s@.subrange(from as int, to as int),
{
    let mut r: Vec<u8> = Vec::new();
    let mut i = from;
    while i < to
        invariant
            from <= i <= to <= s.len(),
            r@ == s@.subrange(from as int, i as int),
        decreases to - i,
    {
        r.push(s[i]);
        assert(r@ =~= s@.subrange(from as int, i + 1));
        i = i + 1;
    }
    r
}

/// The byte sequences held by a vector of byte vectors.
pub open spec fn views(v: Seq<Vec<u8>>) -> Seq<Seq<u8>> {
    v.map_values(|x: Vec<u8>| x@)
}

/// Appends the bytes of `s` to `v`.
pub fn append_bytes(v: &mut Vec<u8>, s: &[u8])
    ensures
        final(v)@ == old(v)@ + s@,
{
    let mut i: usize = 0;
    while i < s.len()
        invariant
            i <= s.len(),
            v@ == old(v)@ + s@.subrange(0, i as int),
        decreases s.len() - i,
    {
        v.push(s[i]);
        assert(v@ =~= old(v)@ + s@.subrange(0, i + 1));
        i = i + 1;
    }
    assert(s@.subrange(0, s@.len() as int) =~= s@);
}

/// Takes in one read of a request: appends the first `n` bytes of `chunk` to `acc`, and
/// answers whether reading is over, which a read that did not fill the chunk signals.
pub fn take_chunk(acc: &mut Vec<u8>, chunk: &[u8], n: usize) -> (done: bool)
    requires
        n <= chunk.len(),
    ensures
        final(acc)@ == old(acc)@ + chunk@.subrange(0, n as int),
        done == (n < chunk.len()),
{
    let mut i: usize = 0;
    while i < n
        invariant
            i <= n <= chunk.len(),
            acc@ == old(acc)@ + chunk@.subrange(0, i as int),
        decreases n - i,
    {
        acc.push(chunk[i]);
        assert(acc@ =~= old(acc)@ + chunk@.subrange(0, i + 1));
        i = i + 1;
    }
    n < chunk.len()
}

/// Splits `s` at every occurrence of the nonempty separator `sep`.
pub fn split_bytes(s: &[u8], sep: &[u8]) -> (r: Vec<Vec<u8>>)
    requires
        sep@.len() > 0,
    ensures
        views(r@) == split_seq(s@, sep@),
{
    let mut r: Vec<Vec<u8>> = Vec::new();
    let mut start: usize = 0;
    loop
        invariant
            sep@.len() > 0,
            start <= s.len(),
            views(r@) + split_from(s@, sep@, start as int) == split_seq(s@, sep@),
        decreases s.len() - start,
    {
        proof {
            lemma_find_from(s@, sep@, start as int);
        }
        match find_bytes(s, sep, start) {
            Some(i) => {
                let piece = copy_range(s, start, i);
                let ghost before = views(r@);
                let ghost pv = piece@;
                r.push(piece);
                assert(views(r@) =~= before.push(pv));
                assert(split_from(s@, sep@, start as int) == seq![s@.subrange(start as int, i as int)]
                    + split_from(s@, sep@, i + sep@.len()));
                assert(views(r@) + split_from(s@, sep@, i + sep@.len()) =~= before
                    + split_from(s@, sep@, start as int));
                start = i + sep.len();
            },
            None => {
                let piece = copy_range(s, start, s.len());
                let ghost before = views(r@);
                let ghost pv = piece@;
                r.push(piece);
                assert(views(r@) =~= before.push(pv));
                assert(views(r@) =~= before + split_from(s@, sep@, start as int));
                return r;
            },
        }
    }
}

/// Every byte of `s` is ASCII.
pub open spec fn all_ascii(s: Seq<u8>) -> bool {
    forall|i: int| 0 <= i < s.len() ==> #[trigger] s[i] < 0x80
}

/// Dropping an ASCII byte from the front of a valid UTF-8 sequence leaves a valid sequence.
proof fn lemma_valid_drop_ascii(s: Seq<u8>)
    requires
        valid_utf8(s),
        s.len() > 0,
        s[0] < 0x80,
    ensures
        valid_utf8(s.subrange(1, s.len() as int)),
{
    assert(length_of_first_scalar(s) == 1);
}

/// Dropping an ASCII prefix of length `k` from a valid UTF-8 sequence leaves a valid sequence.
proof fn lemma_valid_drop_ascii_prefix(s: Seq<u8>, k: int)
    requires
        valid_utf8(s),
        0 <= k <= s.len(),
        forall|j: int| 0 <= j < k ==> #[trigger] s[j] < 0x80,
    ensures
        valid_utf8(s.subrange(k, s.len() as int)),
    decreases k,
{
    if k == 0 {
        assert(s.subrange(0, s.len() as int) =~= s);
    } else {
        lemma_valid_drop_ascii_prefix(s, k - 1);
        let t = s.subrange(k - 1, s.len() as int);
        assert(t[0] == s[k - 1]);
        lemma_valid_drop_ascii(t);
        assert(t.subrange(1, t.len() as int) =~= s.subrange(k, s.len() as int));
    }
}

/// Cutting a valid UTF-8 sequence around an occurrence of an ASCII separator leaves two valid sequences.
pub proof fn lemma_valid_around_ascii(s: Seq<u8>, sep: Seq<u8>, i: int)
    requires
        valid_utf8(s),
        occurs_at(s, sep, i),
        sep.len() > 0,
        all_ascii(sep),
    ensures
        valid_utf8(s.subrange(0, i)),
        valid_utf8(s.subrange(i + sep.len(), s.len() as int)),
{
    assert(s[i] == sep[0]) by {
        assert(s.subrange(i, i + sep.len())[0] == sep[0]);
    }
    is_char_boundary_iff_not_is_continuation_byte(s, i);
    valid_utf8_split(s, i);
    let t = s.subrange(i, s.len() as int);
    assert forall|j: int| 0 <= j < sep.len() implies #[trigger] t[j] < 0x80 by {
        assert(t[j] == s.subrange(i, i + sep.len())[j]);
    }
    lemma_valid_drop_ascii_prefix(t, sep.len() as int);
    assert(t.subrange(sep.len() as int, t.len() as int) =~= s.subrange(i + sep.len(), s.len() as int));
}

/// Every piece cut out of a valid UTF-8 sequence at an ASCII separator is valid UTF-8.
pub proof fn lemma_split_from_valid(s: Seq<u8>, sep: Seq<u8>, start: int)
    requires
        0 <= start <= s.len(),
        valid_utf8(s.subrange(start, s.len() as int)),
        sep.len() > 0,
        all_ascii(sep),
    ensures
        forall|k: int|
            0 <= k < split_from(s, sep, start).len() ==> valid_utf8(
                #[trigger] split_from(s, sep, start)[k],
            ),
    decreases s.len() - start,
{
    lemma_find_from(s, sep, start);
    match find_from(s, sep, start) {
        Some(i) => {
            let t = s.subrange(start, s.len() as int);
            assert(occurs_at(t, sep, i - start)) by {
                assert(t.subrange(i - start, i - start + sep.len()) =~= s.subrange(i, i + sep.len()));
            }
            lemma_valid_around_ascii(t, sep, i - start);
            assert(t.subrange(0, i - start) =~= s.subrange(start, i));
            assert(t.subrange(i - start + sep.len(), t.len() as int) =~= s.subrange(
                i + sep.len(),
                s.len() as int,
            ));
            lemma_split_from_valid(s, sep, i + sep.len());
            let rest = split_from(s, sep, i + sep.len());
            assert(split_from(s, sep, start) == seq![s.subrange(start, i)] + rest);
            assert forall|k: int| 0 <= k < split_from(s, sep, start).len() implies valid_utf8(
                #[trigger] split_from(s, sep, start)[k],
            ) by {
                if k > 0 {
                    assert(split_from(s, sep, start)[k] == rest[k - 1]);
                }
            }
        },
        None => {},
    }
}

/// The UTF-8 encoding of joined text is the joined encodings.
pub proof fn lemma_encode_concat(a: Seq<char>, b: Seq<char>)
    ensures
        encode_utf8(a + b) == encode_utf8(a) + encode_utf8(b),
    decreases a.len(),
{
    if a.len() == 0 {
        assert(a + b =~= b);
        assert(encode_utf8(a) =~= Seq::<u8>::empty());
        assert(encode_utf8(a) + encode_utf8(b) =~= encode_utf8(b));
    } else {
        lemma_encode_concat(a.drop_first(), b);
        assert((a + b).drop_first() =~= a.drop_first() + b);
        assert((a + b)[0] == a[0]);
        assert(encode_utf8(a + b) =~= encode_utf8(a) + encode_utf8(b));
    }
}

/// The text of a byte sequence in which each maximal invalid UTF-8 run is replaced by U+FFFD,
/// as `String::from_utf8_lossy` produces it.
pub uninterp spec fn utf8_lossy_text(bytes: Seq<u8>) -> Seq<char>;

/// Calls `String::from_utf8_lossy`. Claims that the result is `utf8_lossy_text` of the bytes,
/// and, as the documentation states, that valid UTF-8 is decoded unchanged.
#[verifier::external_body]
pub(crate) fn utf8_lossy(bytes: &[u8]) -> (r: String)
    ensures
        r@ == utf8_lossy_text(bytes@),
        valid_utf8(bytes@) ==> r@ == decode_utf8(bytes@),
{
    String::from_utf8_lossy(bytes).into_owned()
}

/// Calls `String::from_utf8`. Claims that it succeeds exactly on valid UTF-8,
/// and then holds the decoded characters.
#[verifier::external_body]
pub(crate) fn string_from_utf8(bytes: Vec<u8>) -> (r: Option<String>)
    ensures
        r is Some <==> valid_utf8(bytes@),
        r matches Some(s) ==> s@ == decode_utf8(bytes@),
{
    String::from_utf8(bytes).ok()
}

/// Decodes bytes that are known to be valid UTF-8.
pub fn decode_valid(bytes: Vec<u8>) -> (r: String)
    requires
        valid_utf8(bytes@),
    ensures
        r@ == decode_utf8(bytes@),
{
    match string_from_utf8(bytes) {
        Some(s) => s,
        None => String::new(),
    }
}

/// `String::push` appends one character.
pub assume_specification[ String::push ](s: &mut String, ch: char)
    ensures
        final(s)@ == old(s)@.push(ch),
;

/// The decimal digit character for `d < 10`.
pub open spec fn digit_char(d: nat) -> char {
    (d + 48) as char
}

/// The decimal representation of `n`, without leading zeros.
pub open spec fn decimal(n: nat) -> Seq<char>
    decreases n,
{
    if n < 10 {
        seq![digit_char(n)]
    } else {
        decimal(n / 10).push(digit_char(n % 10))
    }
}

/// The characters are decimal digits (`0` is code 48, `9` code 57), at least one, with no
/// leading zero unless the numeral is `0` itself.
pub open spec fn is_numeral(s: Seq<char>) -> bool {
    &&& s.len() > 0
    &&& forall|i: int| 0 <= i < s.len() ==> 48 <= #[trigger] (s[i] as int) <= 57
    &&& (s.len() == 1 || s[0] as int != 48)
}

/// The number that a string of decimal digits denotes, most significant digit first.
pub open spec fn numeral_value(s: Seq<char>) -> int
    decreases s.len(),
{
    if s.len() == 0 {
        0
    } else {
        numeral_value(s.drop_last()) * 10 + (s.last() as int - 48)
    }
}

/// `decimal(n)` is the base-10 numeral of `n`: digits without leading zeros that read back
/// as `n`.
pub proof fn lemma_decimal_numeral(n: nat)
    ensures
        is_numeral(decimal(n)),
        numeral_value(decimal(n)) == n,
    decreases n,
{
    if n < 10 {
        assert(digit_char(n) as int == n + 48);
        assert(decimal(n) =~= seq![digit_char(n)]);
        assert(decimal(n).drop_last() =~= Seq::<char>::empty());
        assert(numeral_value(Seq::<char>::empty()) == 0);
        assert(decimal(n).last() == digit_char(n));
    } else {
        lemma_decimal_numeral(n / 10);
        let d = decimal(n / 10);
        assert(digit_char(n % 10) as int == n % 10 + 48);
        assert(decimal(n) == d.push(digit_char(n % 10)));
        assert(decimal(n).drop_last() =~= d);
        assert(decimal(n)[0] == d[0]);
        assert forall|i: int| 0 <= i < decimal(n).len() implies 48 <= #[trigger] (
        decimal(n)[i] as int) <= 57 by {
            if i < d.len() {
                assert(decimal(n)[i] == d[i]);
            }
        }
        if d.len() == 1 {
            assert(d.drop_last() =~= Seq::<char>::empty());
            assert(numeral_value(Seq::<char>::empty()) == 0);
            assert(d.last() == d[0]);
            assert(numeral_value(d) == d[0] as int - 48);
        }
        assert(n / 10 * 10 + n % 10 == n);
        assert(decimal(n).last() == digit_char(n % 10));
    }
}

/// Appends the decimal representation of `n` to `s`.
pub fn push_decimal(s: &mut String, n: usize)
    ensures
        final(s)@ == old(s)@ + decimal(n as nat),
    decreases n,
{
    if n >= 10 {
        push_decimal(s, n / 10);
    }
    let d: u8 = (n % 10) as u8;
    let c: char = (d + 48) as char;
    s.push(c);
    assert(c == digit_char((n % 10) as nat));
    proof {
        if n >= 10 {
            assert(decimal(n as nat) == decimal((n / 10) as nat).push(digit_char((n % 10) as nat)));
        }
    }
    assert(s@ =~= old(s)@ + decimal(n as nat));
}

/// The decimal representation of `n` as a string.
pub fn decimal_string(n: usize) -> (r: String)
    ensures
        r@ == decimal(n as nat),
{
    let mut s = String::new();
    push_decimal(&mut s, n);
    assert(s@ =~= decimal(n as nat));
    s
}

} // verus!
