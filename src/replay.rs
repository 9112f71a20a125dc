//! Offline replay: pairing of per-sensor range files with module rows, and
//! the step that takes one value from every range stream.
use vstd::prelude::*;
use regex::Regex;

verus! {

/// File names end in an integer that numbers the sensor: `s12.csv`.
pub const FILE_NAME_PATTERN: &'static str = ".*\\D(\\d+)\\.csv$";

/// The largest sensor number a file name may carry.
pub const MAX_FILE_INDEX: u64 = 2147483647;

/// regex::Regex, a compiled pattern, carried opaque.
#[verifier::external_type_specification]
#[verifier::external_body]
pub struct ExRegex(Regex);

/// regex::Error, why a pattern did not compile, carried opaque.
#[verifier::external_type_specification]
#[verifier::external_body]
pub struct ExRegexError(regex::Error);

/// The text of the first capture group of the leftmost match of `pattern`
/// in `haystack`, if it matches and the group takes part.
pub uninterp spec fn regex_group_one(pattern: Seq<char>, haystack: Seq<char>) -> Option<Seq<char>>;

/// Whether `pattern` compiles as a regular expression.
pub uninterp spec fn regex_compiles(pattern: Seq<char>) -> bool;

/// A compiled pattern together with the text it was compiled from. Only
/// the trusted constructor `new` writes its fields.
struct FileNamePattern {
    re: Regex,
    source: Ghost<Seq<char>>,
}

impl FileNamePattern {
    closed spec fn source(&self) -> Seq<char> {
        self.source@
    }

    /// Relies on regex::Regex::new, which compiles `pattern` or reports
    /// that it is invalid or too large; the result depends on the pattern
    /// alone.
    #[verifier::external_body]
    fn new(pattern: &str) -> (r: Result<FileNamePattern, regex::Error>)
        ensures
            r is Ok <==> regex_compiles(pattern@),
            r matches Ok(p) ==> p.source() == pattern@,
    {
        Regex::new(pattern).map(|re| FileNamePattern { re, source: Ghost(pattern@) })
    }
}

/// Relies on regex::Regex::captures and Captures::get: the first group of
/// the leftmost match of `p.re`, as text. `p.re` is the regex compiled from
/// `p.source()`: only `FileNamePattern::new` builds the pair.
#[verifier::external_body]
fn first_group(p: &FileNamePattern, haystack: &str) -> (r: Option<String>)
    ensures
        opt_text(r) == regex_group_one(p.source(), haystack@),
{
    p.re.captures(haystack).and_then(|c| c.get(1)).map(|m| m.as_str().to_string())
}

/// The text an optional string holds.
pub open spec fn opt_text(o: Option<String>) -> Option<Seq<char>> {
    match o {
        Some(s) => Some(s@),
        None => None,
    }
}

pub open spec fn is_digit(c: char) -> bool {
    '0' <= c && c <= '9'
}

pub open spec fn all_digits(s: Seq<char>) -> bool {
    forall|i: int| 0 <= i < s.len() ==> is_digit(#[trigger] s[i])
}

/// The number that a string of decimal digits writes.
pub open spec fn digits_value(s: Seq<char>) -> nat
    decreases s.len(),
{
    if s.len() == 0 {
        0
    } else {
        digits_value(s.drop_last()) * 10 + ((s.last() as u32) - ('0' as u32)) as nat
    }
}

/// The sensor number written by `s`, if `s` is a non-empty run of ASCII
/// digits whose value is at most `MAX_FILE_INDEX`.
pub open spec fn index_of_digits(s: Seq<char>) -> Option<nat> {
    if s.len() > 0 && all_digits(s) && digits_value(s) <= MAX_FILE_INDEX {
        Some(digits_value(s))
    } else {
        None
    }
}

proof fn lemma_value_grows(s: Seq<char>, k: int)
    requires
        all_digits(s),
        0 <= k <= s.len(),
    ensures
        digits_value(s.subrange(0, k)) <= digits_value(s),
    decreases s.len() - k,
{
    if k < s.len() {
        let t = s.subrange(0, k + 1);
        assert(t.drop_last() =~= s.subrange(0, k));
        assert(is_digit(t.last()));
        lemma_value_grows(s, k + 1);
    } else {
        assert(s.subrange(0, k) =~= s);
    }
}

/// Reads the sensor number that `digits` writes.
pub fn parse_index(digits: &str) -> (r: Option<u64>)
    ensures
        r matches Some(v) ==> index_of_digits(digits@) == Some(v as nat),
        r is None ==> index_of_digits(digits@) is None,
{
    let n = digits.unicode_len();
    if n == 0 {
        return None;
    }
    let mut acc: u64 = 0;
    let mut i: usize = 0;
    while i < n
        invariant
            n == digits@.len(),
            0 <= i <= n,
            all_digits(digits@.subrange(0, i as int)),
            acc == digits_value(digits@.subrange(0, i as int)),
            acc <= MAX_FILE_INDEX,
        decreases n - i,
    {
        let c = digits.get_char(i);
        let ghost pre = digits@.subrange(0, i as int);
        let ghost next = digits@.subrange(0, i + 1);
        proof {
            assert(next.drop_last() =~= pre);
            assert(next.last() == c);
        }
        if !('0' <= c && c <= '9') {
            proof {
                assert(!is_digit(digits@[i as int]));
            }
            return None;
        }
        let d = (c as u32 - '0' as u32) as u64;
        let v = acc * 10 + d;
        if v > MAX_FILE_INDEX {
            proof {
                if all_digits(digits@) {
                    lemma_value_grows(digits@, i + 1);
                }
            }
            return None;
        }
        acc = v;
        proof {
            assert(all_digits(next));
        }
        i += 1;
    }
    proof {
        assert(digits@.subrange(0, n as int) =~= digits@);
    }
    Some(acc)
}

/// Why the range files cannot be paired with the module rows.
#[derive(Clone, Copy, Debug, PartialEq, Eq)]
pub enum PairingError {
    /// The file-name pattern did not compile.
    BadPattern,
    /// The file at this position carries no sensor number.
    UnnumberedFile(usize),
    /// There are not as many files as module rows.
    CountMismatch { modules: usize, files: usize },
    /// No file carries the id of the module row at this position.
    MissingFile(usize),
}

pub open spec fn texts(v: Seq<String>) -> Seq<Seq<char>> {
    v.map_values(|s: String| s@)
}

pub open spec fn result_texts(r: Result<Vec<String>, PairingError>) -> Result<
    Seq<Seq<char>>,
    PairingError,
> {
    match r {
        Ok(v) => Ok(texts(v@)),
        Err(e) => Err(e),
    }
}

pub open spec fn is_numbered(capture: Option<Seq<char>>) -> bool {
    capture matches Some(d) && index_of_digits(d) is Some
}

/// The sensor number of a file, from the group its name captured.
pub open spec fn file_key(capture: Option<Seq<char>>) -> int {
    match capture {
        Some(d) => match index_of_digits(d) {
            Some(v) => v as int,
            None => -1,
        },
        None => -1,
    }
}

/// `j` is the first of the files whose number is `id`.
pub open spec fn is_first_file(captures: Seq<Option<Seq<char>>>, id: int, j: int) -> bool {
    &&& 0 <= j < captures.len()
    &&& file_key(captures[j]) == id
    &&& forall|i: int| 0 <= i < j ==> file_key(#[trigger] captures[i]) != id
}

pub open spec fn has_file(captures: Seq<Option<Seq<char>>>, id: int) -> bool {
    exists|j: int| 0 <= j < captures.len() && file_key(#[trigger] captures[j]) == id
}

/// `file` is the path of the first file numbered `id`.
pub open spec fn takes_file(
    paths: Seq<Seq<char>>,
    captures: Seq<Option<Seq<char>>>,
    id: int,
    file: Seq<char>,
) -> bool {
    exists|j: int| is_first_file(captures, id, j) && file == paths[j]
}

/// What pairing the files named `paths`, whose names captured `captures`,
/// with the module rows `ids` gives: the first file without a number is an
/// error; else the counts must match; else each module row takes the
/// (first listed) file whose number is its id, and the first row without
/// such a file is an error.
pub open spec fn pairing_holds(
    paths: Seq<Seq<char>>,
    captures: Seq<Option<Seq<char>>>,
    ids: Seq<i32>,
    r: Result<Seq<Seq<char>>, PairingError>,
) -> bool {
    let n = paths.len();
    let m = ids.len();
    match r {
        Err(PairingError::BadPattern) => false,
        Err(PairingError::UnnumberedFile(i)) => {
            &&& i < n
            &&& !is_numbered(captures[i as int])
            &&& forall|k: int| 0 <= k < i ==> is_numbered(#[trigger] captures[k])
        },
        Err(PairingError::CountMismatch { modules, files }) => {
            &&& forall|k: int| 0 <= k < n ==> is_numbered(#[trigger] captures[k])
            &&& n != m
            &&& modules == m
            &&& files == n
        },
        Err(PairingError::MissingFile(k)) => {
            &&& forall|i: int| 0 <= i < n ==> is_numbered(#[trigger] captures[i])
            &&& n == m
            &&& k < m
            &&& !has_file(captures, ids[k as int] as int)
            &&& forall|q: int| 0 <= q < k ==> #[trigger] has_file(captures, ids[q] as int)
        },
        Ok(v) => {
            &&& forall|i: int| 0 <= i < n ==> is_numbered(#[trigger] captures[i])
            &&& n == m
            &&& v.len() == m
            &&& forall|q: int| 0 <= q < m ==> takes_file(paths, captures, ids[q] as int, #[trigger] v[q])
        },
    }
}

/// Pairing is determined by the file names, the groups they captured and
/// the module ids: two results that both follow the pairing rule are
/// equal.
pub proof fn lemma_pairing_unique(
    paths: Seq<Seq<char>>,
    captures: Seq<Option<Seq<char>>>,
    ids: Seq<i32>,
    r1: Result<Seq<Seq<char>>, PairingError>,
    r2: Result<Seq<Seq<char>>, PairingError>,
)
    requires
        pairing_holds(paths, captures, ids, r1),
        pairing_holds(paths, captures, ids, r2),
    ensures
        r1 == r2,
{
    lemma_pairing_unique_one_way(paths, captures, ids, r1, r2);
    lemma_pairing_unique_one_way(paths, captures, ids, r2, r1);
    if let (Ok(v1), Ok(v2)) = (r1, r2) {
        assert forall|q: int| 0 <= q < v1.len() implies v1[q] == v2[q] by {
            assert(takes_file(paths, captures, ids[q] as int, v1[q]));
            assert(takes_file(paths, captures, ids[q] as int, v2[q]));
            let j1 = choose|j: int| is_first_file(captures, ids[q] as int, j) && v1[q] == paths[j];
            let j2 = choose|j: int| is_first_file(captures, ids[q] as int, j) && v2[q] == paths[j];
            if j1 < j2 {
                assert(file_key(captures[j1]) != ids[q] as int);
            } else if j2 < j1 {
                assert(file_key(captures[j2]) != ids[q] as int);
            }
        }
        assert(v1 =~= v2);
    }
}

/// Two results that follow the pairing rule are errors of the same kind
/// at the same place, or both succeed.
proof fn lemma_pairing_unique_one_way(
    paths: Seq<Seq<char>>,
    captures: Seq<Option<Seq<char>>>,
    ids: Seq<i32>,
    r1: Result<Seq<Seq<char>>, PairingError>,
    r2: Result<Seq<Seq<char>>, PairingError>,
)
    requires
        pairing_holds(paths, captures, ids, r1),
        pairing_holds(paths, captures, ids, r2),
    ensures
        r1 is Err ==> r1 == r2,
{
    match r1 {
        Err(PairingError::UnnumberedFile(i1)) => {
            assert(!is_numbered(captures[i1 as int]));
            if let Err(PairingError::UnnumberedFile(i2)) = r2 {
                if i2 < i1 {
                    assert(is_numbered(captures[i2 as int]));
                } else if i1 < i2 {
                    assert(is_numbered(captures[i1 as int]));
                }
            }
        },
        Err(PairingError::MissingFile(k1)) => {
            match r2 {
                Err(PairingError::MissingFile(k2)) => {
                    if k2 < k1 {
                        assert(has_file(captures, ids[k2 as int] as int));
                    } else if k1 < k2 {
                        assert(has_file(captures, ids[k1 as int] as int));
                    }
                },
                Ok(v2) => {
                    assert(takes_file(paths, captures, ids[k1 as int] as int, v2[k1 as int]));
                    let j = choose|j: int|
                        is_first_file(captures, ids[k1 as int] as int, j) && v2[k1 as int]
                            == paths[j];
                    assert(file_key(captures[j]) == ids[k1 as int] as int);
                },
                Err(PairingError::UnnumberedFile(i2)) => {
                    assert(is_numbered(captures[i2 as int]));
                },
                _ => {},
            }
        },
        Err(PairingError::CountMismatch { .. }) => {
            if let Err(PairingError::UnnumberedFile(i2)) = r2 {
                assert(is_numbered(captures[i2 as int]));
            }
        },
        _ => {},
    }
}

pub open spec fn opt_texts(v: Seq<Option<String>>) -> Seq<Option<Seq<char>>> {
    v.map_values(|o: Option<String>| opt_text(o))
}

/// The position of the first file numbered `id`, if any.
fn first_file(keys: &Vec<u64>, id: i32) -> (r: Option<usize>)
    ensures
        r matches Some(j) ==> j < keys@.len() && keys@[j as int] == id && forall|i: int|
            0 <= i < j ==> keys@[i] != id,
        r is None ==> forall|i: int| 0 <= i < keys@.len() ==> keys@[i] != id,
{
    let mut j: usize = 0;
    while j < keys.len()
        invariant
            0 <= j <= keys@.len(),
            forall|i: int| 0 <= i < j ==> keys@[i] != id,
        decreases keys@.len() - j,
    {
        if id >= 0 && keys[j] == id as u64 {
            return Some(j);
        }
        j += 1;
    }
    None
}

/// Gives each module row of `ids` the file of `paths` whose number, read
/// from the group in `captures` that the file's name captured, is the
/// row's id.
pub fn pair_files(paths: &Vec<String>, captures: &Vec<Option<String>>, ids: &Vec<i32>) -> (r:
    Result<Vec<String>, PairingError>)
    requires
        paths@.len() == captures@.len(),
    ensures
        pairing_holds(texts(paths@), opt_texts(captures@), ids@, result_texts(r)),
{
    let ghost caps = opt_texts(captures@);
    let n = paths.len();
    let m = ids.len();
    let mut keys: Vec<u64> = Vec::new();
    let mut i: usize = 0;
    while i < n
        invariant
            n == paths@.len(),
            n == captures@.len(),
            caps == opt_texts(captures@),
            caps.len() == n,
            0 <= i <= n,
            keys@.len() == i,
            forall|k: int| 0 <= k < i ==> keys@[k] == file_key(#[trigger] caps[k]),
            forall|k: int| 0 <= k < i ==> is_numbered(#[trigger] caps[k]),
        decreases n - i,
    {
        let key = match &captures[i] {
            Some(d) => parse_index(d.as_str()),
            None => None,
        };
        match key {
            Some(v) => {
                proof {
                    assert(caps[i as int] == opt_text(captures@[i as int]));
                }
                keys.push(v);
            },
            None => {
                return Err(PairingError::UnnumberedFile(i));
            },
        }
        i += 1;
    }
    if n != m {
        return Err(PairingError::CountMismatch { modules: m, files: n });
    }
    let ghost p = texts(paths@);
    let mut out: Vec<String> = Vec::new();
    let ghost mut chosen: Seq<int> = Seq::empty();
    let mut q: usize = 0;
    while q < m
        invariant
            n == paths@.len(),
            n == m,
            m == ids@.len(),
            p == texts(paths@),
            p.len() == n,
            caps == opt_texts(captures@),
            caps.len() == n,
            keys@.len() == n,
            forall|k: int| 0 <= k < n ==> keys@[k] == file_key(#[trigger] caps[k]),
            0 <= q <= m,
            out@.len() == q,
            chosen.len() == q,
            forall|t: int|
                0 <= t < q ==> is_first_file(caps, ids@[t] as int, #[trigger] chosen[t])
                    && texts(out@)[t] == p[chosen[t]],
            forall|t: int| 0 <= t < q ==> #[trigger] has_file(caps, ids@[t] as int),
            forall|k: int| 0 <= k < n ==> is_numbered(#[trigger] caps[k]),
        decreases m - q,
    {
        match first_file(&keys, ids[q]) {
            Some(j) => {
                proof {
                    assert forall|t: int| 0 <= t < j implies file_key(#[trigger] caps[t])
                        != ids@[q as int] as int by {
                        assert(keys@[t] == file_key(caps[t]));
                    }
                    assert(keys@[j as int] == file_key(caps[j as int]));
                    assert(is_first_file(caps, ids@[q as int] as int, j as int));
                }
                let ghost before = texts(out@);
                out.push(paths[j].clone());
                proof {
                    assert(texts(out@) =~= before.push(p[j as int]));
                    assert(file_key(caps[j as int]) == ids@[q as int] as int);
                    chosen = chosen.push(j as int);
                }
            },
            None => {
                proof {
                    assert forall|jj: int| 0 <= jj < caps.len() implies file_key(
                        #[trigger] caps[jj],
                    ) != ids@[q as int] as int by {
                        assert(keys@[jj] == file_key(caps[jj]));
                    }
                }
                assert(!has_file(caps, ids@[q as int] as int));
                assert(result_texts(Err(PairingError::MissingFile(q))) == Err::<Seq<Seq<char>>, PairingError>(PairingError::MissingFile(q)));
                return Err(PairingError::MissingFile(q));
            },
        }
        q += 1;
    }
    proof {
        let v = texts(out@);
        assert forall|t: int| 0 <= t < m implies takes_file(p, caps, ids@[t] as int, #[trigger] v[t]) by {
            assert(is_first_file(caps, ids@[t] as int, chosen[t]));
        }
        assert(result_texts(Ok(out)) == Ok::<Seq<Seq<char>>, PairingError>(v));
    }
    Ok(out)
}

/// Gives each module row of `ids` the range file of `paths` whose name
/// ends in the row's id.
pub fn order_sensor_files(paths: &Vec<String>, ids: &Vec<i32>) -> (r: Result<
    Vec<String>,
    PairingError,
>)
    ensures
        (r is Err && r->Err_0 == PairingError::BadPattern) <==> !regex_compiles(
            FILE_NAME_PATTERN@,
        ),
        regex_compiles(FILE_NAME_PATTERN@) ==> pairing_holds(
            texts(paths@),
            Seq::new(
                paths@.len(),
                |i: int| regex_group_one(FILE_NAME_PATTERN@, paths@[i]@),
            ),
            ids@,
            result_texts(r),
        ),
{
    let pattern = match FileNamePattern::new(FILE_NAME_PATTERN) {
        Ok(p) => p,
        Err(_) => {
            return Err(PairingError::BadPattern);
        },
    };
    let n = paths.len();
    let mut captures: Vec<Option<String>> = Vec::new();
    let mut i: usize = 0;
    while i < n
        invariant
            n == paths@.len(),
            pattern.source() == FILE_NAME_PATTERN@,
            0 <= i <= n,
            captures@.len() == i,
            forall|k: int|
                0 <= k < i ==> opt_text(#[trigger] captures@[k]) == regex_group_one(
                    FILE_NAME_PATTERN@,
                    paths@[k]@,
                ),
        decreases n - i,
    {
        captures.push(first_group(&pattern, paths[i].as_str()));
        i += 1;
    }
    let r = pair_files(paths, &captures, ids);
    proof {
        assert(opt_texts(captures@) =~= Seq::new(
            paths@.len(),
            |i: int| regex_group_one(FILE_NAME_PATTERN@, paths@[i]@),
        ));
    }
    r
}

/// One value from every stream, in order, or `None` as soon as any stream
/// has run out.
pub fn next_row<T>(cells: Vec<Option<T>>) -> (r: Option<Vec<T>>)
    ensures
        r is None <==> exists|i: int| 0 <= i < cells@.len() && cells@[i] is None,
        r matches Some(row) ==> row@.len() == cells@.len() && forall|i: int|
            0 <= i < cells@.len() ==> cells@[i] == Some(#[trigger] row@[i]),
{
    let ghost all = cells@;
    let mut rest = cells;
    let mut row: Vec<T> = Vec::new();
    while rest.len() > 0
        invariant
            all == cells@,
            row@.len() + rest@.len() == all.len(),
            rest@ == all.subrange(row@.len() as int, all.len() as int),
            forall|i: int| 0 <= i < row@.len() ==> all[i] == Some(#[trigger] row@[i]),
        decreases rest@.len(),
    {
        let ghost k = row@.len() as int;
        let cell = rest.remove(0);
        assert(all[k] == cell);
        match cell {
            Some(v) => {
                row.push(v);
            },
            None => {
                assert(all[k] is None);
                return None;
            },
        }
    }
    assert forall|i: int| 0 <= i < all.len() implies !(all[i] is None) by {
        assert(all[i] == Some(row@[i]));
    }
    Some(row)
}

} // verus!
