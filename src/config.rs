use vstd::prelude::*;
use vstd::string::StringSliceAdditionalSpecFns;

verus! {

/// Errors in what the user asked for; each ends the run.
#[derive(PartialEq, Eq, Structural, Clone, Copy, Debug)]
pub enum ConfigError {
    /// A text handed to the runtime holds a nul byte, its string terminator.
    NulByte,
    /// The benchmark names a measurement model other than the two known ones.
    UnknownModel,
}

/// The measurement models.
#[derive(PartialEq, Eq, Structural, Clone, Copy, Debug)]
pub enum Model {
    /// Count the matches.
    Count,
    /// Sum the lengths of the matches.
    CountSpans,
}

/// True iff the bytes hold a nul.
pub fn contains_nul(s: &str) -> (r: bool)
    ensures
        r == s.spec_bytes().contains(0u8),
{
    let b = s.as_bytes();
    let mut i: usize = 0;
    while i < b.len()
        invariant
            b@ == s.spec_bytes(),
            0 <= i <= b@.len(),
            forall|j: int| 0 <= j < i ==> b@[j] != 0u8,
        decreases b@.len() - i,
    {
        if b[i] == 0 {
            assert(b@[i as int] == 0u8);
            return true;
        }
        i = i + 1;
    }
    false
}

/// Checks that a text can cross into the runtime as a C string.
pub fn check_text(s: &str) -> (r: Result<(), ConfigError>)
    ensures
        r is Err <==> s.spec_bytes().contains(0u8),
        r matches Err(e) ==> e == ConfigError::NulByte,
{
    if contains_nul(s) {
        Err(ConfigError::NulByte)
    } else {
        Ok(())
    }
}

/// True iff the two byte strings are equal.
fn bytes_equal(a: &[u8], b: &[u8]) -> (r: bool)
    ensures
        r == (a@ == b@),
{
    if a.len() != b.len() {
        return false;
    }
    let mut i: usize = 0;
    while i < a.len()
        invariant
            a@.len() == b@.len(),
            0 <= i <= a@.len(),
            forall|j: int| 0 <= j < i ==> a@[j] == b@[j],
        decreases a@.len() - i,
    {
        if a[i] != b[i] {
            return false;
        }
        i = i + 1;
    }
    assert(a@ =~= b@);
    true
}

/// The model that a benchmark names: `count` or `count-spans`.
pub fn parse_model(name: &str) -> (r: Result<Model, ConfigError>)
    ensures
        r == Ok::<Model, ConfigError>(Model::Count) <==> name.spec_bytes() == "count".spec_bytes(),
        r == Ok::<Model, ConfigError>(Model::CountSpans) <==> name.spec_bytes()
            == "count-spans".spec_bytes(),
        r is Err <==> name.spec_bytes() != "count".spec_bytes() && name.spec_bytes()
            != "count-spans".spec_bytes(),
        r matches Err(e) ==> e == ConfigError::UnknownModel,
{
    proof {
        reveal_strlit("count");
        reveal_strlit("count-spans");
        vstd::string::is_ascii_spec_bytes("count");
        vstd::string::is_ascii_spec_bytes("count-spans");
        assert("count".spec_bytes().len() != "count-spans".spec_bytes().len());
    }
    let n = name.as_bytes();
    let count = "count".as_bytes();
    let spans = "count-spans".as_bytes();
    if bytes_equal(n, count) {
        Ok(Model::Count)
    } else if bytes_equal(n, spans) {
        Ok(Model::CountSpans)
    } else {
        Err(ConfigError::UnknownModel)
    }
}

} // verus!
