//! The encryption of Lineage 2 package files: a header that names its version,
//! and a key byte that all other bytes are combined with.

use vstd::prelude::*;
use vstd::arithmetic::power::*;
use vstd::slice::slice_subrange;
use crate::bytes;
use crate::reader;
use crate::text;
use crate::utf16;

verus! {

/// The length of the header of an encrypted file.
pub const HEADER_LEN: usize = 28;

/// The key of version 111.
pub const KEY_111: u8 = 0x2c;

/// Text in lower case, by the rules of Unicode.
pub uninterp spec fn unicode_lowercase(s: Seq<char>) -> Seq<char>;

/// Folds text with `str::to_lowercase`, which maps each character by the
/// Unicode property `Lowercase`; on ASCII text that is ASCII lower case.
#[verifier::external_body]
fn lowercase(s: &str) -> (r: String)
    ensures
        r@ == unicode_lowercase(s@),
        text::all_ascii(s@) ==> r@ == text::lower_text(s@),
{
    s.to_lowercase()
}

/// Bytes combined with a key byte.
pub open spec fn combined(d: Seq<u8>, key: u8) -> Seq<u8> {
    d.map_values(|b: u8| b ^ key)
}

/// The sum of code units.
pub open spec fn unit_sum(units: Seq<u16>) -> int
    decreases units.len(),
{
    if units.len() == 0 {
        0
    } else {
        unit_sum(units.drop_last()) + units.last()
    }
}

/// The key of version 121: the sum of the code units of the file name in lower
/// case, as one byte.
pub open spec fn key_121(lower_name: Seq<char>) -> u8 {
    (unit_sum(utf16::utf16_units(lower_name)) % 256) as u8
}

/// The text in the header of a file.
pub open spec fn header_text(raw: Seq<u8>) -> Seq<char> {
    utf16::utf16_text(reader::units_of_bytes(raw.take(HEADER_LEN as int)))
}

pub open spec fn has_encryption_header(raw: Seq<u8>) -> bool {
    raw.len() >= HEADER_LEN && text::starts_with(header_text(raw), "Lineage2Ver"@)
}

/// The digits of the version in the header of an encrypted file.
pub open spec fn version_digits(raw: Seq<u8>) -> Seq<char> {
    text::leading_digits(header_text(raw).skip("Lineage2Ver"@.len() as int))
}

/// The key for the version that a header names.
pub open spec fn key_of(raw: Seq<u8>, file_name: Seq<char>) -> Result<u8, Seq<char>> {
    let digits = version_digits(raw);
    if digits.len() == 0 {
        Err("Cabeçalho de criptografia Lineage 2 inválido."@)
    } else if text::number_of(digits) == 111 {
        Ok(KEY_111)
    } else if text::number_of(digits) == 121 {
        Ok(key_121(unicode_lowercase(file_name)))
    } else {
        Err(
            "A criptografia Lineage 2 v"@ + text::decimal(text::number_of(digits))
                + " não é suportada."@,
        )
    }
}

/// A package file as it is worked on, and what it takes to store it again.
#[derive(Debug, Clone)]
pub struct DecryptedPackage {
    pub working: Vec<u8>,
    pub encrypted: bool,
    pub xor_key: u8,
    pub header: Vec<u8>,
}

pub struct DecryptedModel {
    pub working: Seq<u8>,
    pub encrypted: bool,
    pub key: u8,
    pub header: Seq<u8>,
}

impl View for DecryptedPackage {
    type V = DecryptedModel;

    open spec fn view(&self) -> DecryptedModel {
        DecryptedModel {
            working: self.working@,
            encrypted: self.encrypted,
            key: self.xor_key,
            header: self.header@,
        }
    }
}

/// The content of a file: as it stands, or without its encryption.
pub open spec fn decrypted(raw: Seq<u8>, file_name: Seq<char>) -> Result<DecryptedModel, Seq<char>> {
    if !has_encryption_header(raw) {
        Ok(DecryptedModel { working: raw, encrypted: false, key: 0, header: Seq::empty() })
    } else {
        match key_of(raw, file_name) {
            Err(e) => Err(e),
            Ok(key) => Ok(
                DecryptedModel {
                    working: combined(raw.skip(HEADER_LEN as int), key),
                    encrypted: true,
                    key,
                    header: raw.take(HEADER_LEN as int),
                },
            ),
        }
    }
}

/// The file of changed content.
pub open spec fn stored(working: Seq<u8>, encrypted: bool, key: u8, header: Seq<u8>) -> Seq<u8> {
    if encrypted {
        header + combined(working, key)
    } else {
        working
    }
}

/// Combining with a key twice gives the bytes back.
pub proof fn combining_twice_restores(d: Seq<u8>, key: u8)
    ensures
        combined(combined(d, key), key) == d,
{
    assert forall|i: int| 0 <= i < d.len() implies combined(combined(d, key), key)[i] == d[i] by {
        let b = d[i];
        assert((b ^ key) ^ key == b) by (bit_vector);
    }
    assert(combined(combined(d, key), key) =~= d);
}

/// Content that was not changed is stored as the file that it came from.
pub proof fn unchanged_content_is_stored_unchanged(raw: Seq<u8>, file_name: Seq<char>)
    ensures
        decrypted(raw, file_name) matches Ok(d) ==> stored(
            d.working,
            d.encrypted,
            d.key,
            d.header,
        ) == raw,
{
    if let Ok(d) = decrypted(raw, file_name) {
        if d.encrypted {
            combining_twice_restores(raw.skip(HEADER_LEN as int), d.key);
            assert(raw.take(HEADER_LEN as int) + raw.skip(HEADER_LEN as int) =~= raw);
        }
    }
}

/// Content that is stored with the encryption of a file is read back from it.
pub proof fn stored_content_is_read_back(raw: Seq<u8>, file_name: Seq<char>, working: Seq<u8>)
    ensures
        decrypted(raw, file_name) matches Ok(d) ==> (d.encrypted ==> decrypted(
            stored(working, d.encrypted, d.key, d.header),
            file_name,
        ) == Ok::<DecryptedModel, Seq<char>>(DecryptedModel { working, ..d })),
{
    if let Ok(d) = decrypted(raw, file_name) {
        if d.encrypted {
            let file = stored(working, d.encrypted, d.key, d.header);
            assert(file.take(HEADER_LEN as int) =~= raw.take(HEADER_LEN as int));
            assert(file.skip(HEADER_LEN as int) =~= combined(working, d.key));
            combining_twice_restores(working, d.key);
        }
    }
}

fn combine(data: &[u8], key: u8) -> (r: Vec<u8>)
    ensures
        r@ == combined(data@, key),
{
    let mut output: Vec<u8> = Vec::new();
    let mut i: usize = 0;
    while i < data.len()
        invariant
            i <= data@.len(),
            output@.len() == i,
            forall|k: int| 0 <= k < i ==> #[trigger] output@[k] == data@[k] ^ key,
        decreases data.len() - i,
    {
        output.push(data[i] ^ key);
        i = i + 1;
    }
    assert(output@ =~= combined(data@, key));
    output
}

/// The key of version 121 for a file name in lower case.
pub fn key_of_lowered(lower_name: &str) -> (r: u8)
    ensures
        r == key_121(lower_name@),
{
    let chars = text::chars_of(lower_name);
    let units = utf16::encode_utf16(chars.as_slice());
    let mut sum: u32 = 0;
    let mut i: usize = 0;
    assert(units@.take(0) =~= Seq::<u16>::empty());
    while i < units.len()
        invariant
            i <= units@.len(),
            sum < 256,
            sum == unit_sum(units@.take(i as int)) % 256,
        decreases units.len() - i,
    {
        proof {
            assert(units@.take(i + 1).drop_last() =~= units@.take(i as int));
        }
        sum = (sum + units[i] as u32) % 256;
        i = i + 1;
    }
    assert(units@.take(i as int) =~= units@);
    sum as u8
}

pub fn compute_key_121(file_name: &str) -> (r: u8)
    ensures
        r == key_121(unicode_lowercase(file_name@)),
        text::all_ascii(file_name@) ==> r == key_121(text::lower_text(file_name@)),
{
    let lower = lowercase(file_name);
    key_of_lowered(lower.as_str())
}

/// The digits at the start of a text.
fn digits_at(s: &[char], from: usize) -> (r: usize)
    requires
        from <= s@.len(),
    ensures
        from <= r <= s@.len(),
        s@.subrange(from as int, r as int) == text::leading_digits(s@.skip(from as int)),
    decreases s@.len() - from,
{
    let available: usize = s.len();
    if from == available || !('0' <= s[from] && s[from] <= '9') {
        assert(s@.subrange(from as int, from as int) =~= Seq::<char>::empty());
        return from;
    }
    let end: usize = digits_at(s, from + 1);
    proof {
        assert(s@.skip(from as int).skip(1) =~= s@.skip(from + 1));
        assert(s@.subrange(from as int, end as int) =~= seq![s@[from as int]] + s@.subrange(
            from + 1,
            end as int,
        ));
    }
    end
}

/// The number of a few digits.
fn small_number(s: &[char]) -> (r: i64)
    requires
        s@.len() <= 14,
        text::all_digits(s@),
    ensures
        r == text::number_of(s@),
{
    let mut value: i64 = 0;
    let mut bound: i64 = 1;
    let mut i: usize = 0;
    proof {
        assert(s@.take(0) =~= Seq::<char>::empty());
        lemma_pow0(10);
    }
    while i < s.len()
        invariant
            i <= s@.len() <= 14,
            text::all_digits(s@),
            0 <= value < bound,
            bound == pow(10, i as nat),
            value == text::number_of(s@.take(i as int)),
        decreases s.len() - i,
    {
        proof {
            assert(s@.take(i + 1).drop_last() =~= s@.take(i as int));
            assert(s@.take(i + 1).last() == s@[i as int]);
            assert(text::is_digit(s@[i as int]));
            lemma_pow_increases(10, i as nat, 13);
            assert(pow(10, 13) == 10_000_000_000_000) by {
                reveal_with_fuel(pow, 14);
            }
            lemma_pow_adds(10, 1, i as nat);
            lemma_pow1(10);
        }
        value = 10 * value + (s[i] as u32 - '0' as u32) as i64;
        bound = 10 * bound;
        i = i + 1;
    }
    assert(s@.take(i as int) =~= s@);
    value
}

proof fn leading_digits_are_digits(s: Seq<char>)
    ensures
        text::all_digits(text::leading_digits(s)),
        text::leading_digits(s).len() <= s.len(),
    decreases s.len(),
{
    if s.len() > 0 && text::is_digit(s[0]) {
        leading_digits_are_digits(s.skip(1));
        let rest = text::leading_digits(s.skip(1));
        assert forall|i: int| 0 <= i < text::leading_digits(s).len() implies text::is_digit(
            #[trigger] text::leading_digits(s)[i],
        ) by {
            if i > 0 {
                assert(text::leading_digits(s)[i] == rest[i - 1]);
            }
        }
    }
}

proof fn decoded_text_is_short(units: Seq<u16>)
    ensures
        utf16::utf16_text(units).len() <= units.len(),
    decreases units.len(),
{
    if units.len() > 0 {
        decoded_text_is_short(units.skip(1));
        if units.len() > 1 {
            decoded_text_is_short(units.skip(2));
        }
    }
}

/// A decrypted file that is handed to callers.
pub open spec fn decrypted_result(
    r: Result<DecryptedPackage, String>,
    model: Result<DecryptedModel, Seq<char>>,
) -> bool {
    match r {
        Ok(package) => model == Ok::<DecryptedModel, Seq<char>>(package@),
        Err(message) => model == Err::<DecryptedModel, Seq<char>>(message@),
    }
}

/// Removes the encryption of a package file, if it has one.
pub fn decrypt(raw: Vec<u8>, file_name: &str) -> (r: Result<DecryptedPackage, String>)
    ensures
        decrypted_result(r, decrypted(raw@, file_name@)),
{
    if raw.len() >= HEADER_LEN {
        let mut units: Vec<u16> = Vec::new();
        let mut i: usize = 0;
        let ghost head = raw@.take(HEADER_LEN as int);
        while i < 14
            invariant
                i <= 14,
                raw@.len() >= HEADER_LEN,
                head == raw@.take(HEADER_LEN as int),
                units@.len() == i,
                forall|k: int|
                    0 <= k < i ==> #[trigger] units@[k] == bytes::u16_of(head.subrange(2 * k, 2 * k + 2)),
            decreases 14 - i,
        {
            assert(raw@.subrange(2 * i as int, 2 * i + 2) =~= head.subrange(2 * i as int, 2 * i + 2));
            units.push(bytes::u16_at(raw.as_slice(), 2 * i));
            i = i + 1;
        }
        assert(units@ =~= reader::units_of_bytes(head));
        let text = utf16::decode_utf16_lossy(units.as_slice());
        let chars = text::chars_of(text.as_str());
        proof {
            decoded_text_is_short(units@);
        }
        if let Some(rest) = text::without_prefix(chars.as_slice(), "Lineage2Ver") {
            proof {
                leading_digits_are_digits(rest@);
            }
            let end: usize = digits_at(rest, 0);
            assert(rest@.skip(0) =~= rest@);
            let digits = slice_subrange(rest, 0, end);
            if digits.len() == 0 {
                return Err("Cabeçalho de criptografia Lineage 2 inválido.".to_owned());
            }
            let version: i64 = small_number(digits);
            let xor_key: u8 = if version == 111 {
                KEY_111
            } else if version == 121 {
                compute_key_121(file_name)
            } else {
                return Err(
                    text::join3(
                        "A criptografia Lineage 2 v",
                        text::decimal_text(version).as_str(),
                        " não é suportada.",
                    ),
                );
            };
            let length: usize = raw.len();
            let working = combine(slice_subrange(raw.as_slice(), HEADER_LEN, length), xor_key);
            assert(raw@.subrange(HEADER_LEN as int, length as int) =~= raw@.skip(
                HEADER_LEN as int,
            ));
            let header = bytes::copy_range(raw.as_slice(), 0, HEADER_LEN);
            assert(header@ =~= raw@.take(HEADER_LEN as int));
            return Ok(DecryptedPackage { working, encrypted: true, xor_key, header });
        }
    }
    let header: Vec<u8> = Vec::new();
    Ok(DecryptedPackage { working: raw, encrypted: false, xor_key: 0, header })
}

/// The file of changed content.
pub fn encrypted_file(working: &[u8], encrypted: bool, xor_key: u8, header: &[u8]) -> (r: Vec<u8>)
    ensures
        r@ == stored(working@, encrypted, xor_key, header@),
{
    if !encrypted {
        return bytes::copy_bytes(working);
    }
    let mut output = bytes::copy_bytes(header);
    let body = combine(working, xor_key);
    bytes::append(&mut output, body.as_slice());
    output
}

pub fn re_encrypt(working: &[u8], decrypted: &DecryptedPackage) -> (r: Vec<u8>)
    ensures
        r@ == stored(working@, decrypted@.encrypted, decrypted@.key, decrypted@.header),
{
    encrypted_file(working, decrypted.encrypted, decrypted.xor_key, decrypted.header.as_slice())
}

} // verus!
