use vstd::prelude::*;

use crate::paths::{file_name, file_name_of, join, join_path, with_extension, with_extension_of};

verus! {

/// The string under the key `key` of the JSON object that the bytes hold, as
/// serde_json reads it.
pub uninterp spec fn json_string_field_of(b: Seq<u8>, key: Seq<char>) -> Option<Seq<char>>;

/// A string without its leading and trailing whitespace, as `str::trim` gives it.
pub uninterp spec fn trim_of(s: Seq<char>) -> Seq<char>;

/// Relies on `serde_json::from_slice` into a `serde_json::Value`, then
/// `Value::get` and `Value::as_str`: the string under `key` where the bytes
/// hold a JSON object with a string there, else `None`.
#[verifier::external_body]
fn string_field(bytes: &[u8], key: &str) -> (r: Option<String>)
    ensures
        match r {
            Some(t) => json_string_field_of(bytes@, key@) == Some(t@),
            None => json_string_field_of(bytes@, key@) is None,
        },
{
    serde_json::from_slice::<serde_json::Value>(bytes).ok().and_then(
        |v| v.get(key).and_then(|t| t.as_str()).map(|t| t.to_string()),
    )
}

/// Relies on `str::trim`: the string with leading and trailing whitespace removed.
#[verifier::external_body]
fn trim(s: &str) -> (r: String)
    ensures
        r@ == trim_of(s@),
{
    s.trim().to_string()
}

/// Why a transcription gave no text.
#[derive(Clone, Copy, Debug, PartialEq, Eq, Structural)]
pub enum TranscribeError {
    /// The audio file's path has no file name.
    NoFileName,
    /// The tool wrote no result file.
    MissingOutput,
    /// The result file holds no JSON object with a string under `text`.
    MalformedOutput,
}

/// How to run the transcription tool on one audio file. A temperature is
/// held in hundredths (`50` stands for 0.50).
pub struct Transcribe {
    pub audio_file: String,
    pub model: String,
    pub lang: Option<String>,
    pub temperature: Option<u32>,
}

/// The decimal digit `d` as a character.
pub open spec fn digit_char(d: nat) -> char {
    if d == 0 {
        '0'
    } else if d == 1 {
        '1'
    } else if d == 2 {
        '2'
    } else if d == 3 {
        '3'
    } else if d == 4 {
        '4'
    } else if d == 5 {
        '5'
    } else if d == 6 {
        '6'
    } else if d == 7 {
        '7'
    } else if d == 8 {
        '8'
    } else {
        '9'
    }
}

/// A temperature of `h` hundredths (at most 2.00) with two decimals: `0.50`.
pub open spec fn temperature_text(h: nat) -> Seq<char> {
    seq![digit_char(h / 100), '.', digit_char((h / 10) % 10), digit_char(h % 10)]
}

/// The tool's arguments: the audio file, JSON output into `scratch`, the
/// model, then the language and the temperature where they are set.
pub open spec fn tool_args(t: Transcribe, scratch: Seq<char>) -> Seq<Seq<char>> {
    let base = seq![
        t.audio_file@,
        "--output_format"@,
        "json"@,
        "--output_dir"@,
        scratch,
        "--model"@,
        t.model@,
    ];
    let with_lang = match t.lang {
        Some(l) => base + seq!["--language"@, l@],
        None => base,
    };
    match t.temperature {
        Some(h) => with_lang + seq!["--temperature"@, temperature_text(h as nat)],
        None => with_lang,
    }
}

/// The transcript that a result file gives.
pub open spec fn transcript_of(bytes: Seq<u8>) -> Result<Seq<char>, TranscribeError> {
    match json_string_field_of(bytes, "text"@) {
        Some(t) => Ok(trim_of(t)),
        None => Err(TranscribeError::MalformedOutput),
    }
}

fn digit(d: u32) -> (r: String)
    requires
        d < 10,
    ensures
        r@ == seq![digit_char(d as nat)],
{
    proof {
        reveal_strlit("0");
        reveal_strlit("1");
        reveal_strlit("2");
        reveal_strlit("3");
        reveal_strlit("4");
        reveal_strlit("5");
        reveal_strlit("6");
        reveal_strlit("7");
        reveal_strlit("8");
        reveal_strlit("9");
    }
    let s = if d == 0 {
        "0"
    } else if d == 1 {
        "1"
    } else if d == 2 {
        "2"
    } else if d == 3 {
        "3"
    } else if d == 4 {
        "4"
    } else if d == 5 {
        "5"
    } else if d == 6 {
        "6"
    } else if d == 7 {
        "7"
    } else if d == 8 {
        "8"
    } else {
        "9"
    };
    let r = String::from_str(s);
    assert(r@ =~= seq![digit_char(d as nat)]);
    r
}

/// Writes a temperature of `h` hundredths with two decimals.
pub fn format_temperature(h: u32) -> (r: String)
    requires
        h <= 200,
    ensures
        r@ == temperature_text(h as nat),
{
    proof {
        reveal_strlit(".");
    }
    let mut r = digit(h / 100);
    r.append(".");
    let tens = digit((h / 10) % 10);
    r.append(tens.as_str());
    let ones = digit(h % 10);
    r.append(ones.as_str());
    assert(r@ =~= temperature_text(h as nat));
    r
}

/// The transcript in the bytes of a result file: the string under `text`,
/// trimmed, or `MalformedOutput`.
pub fn read_transcript(bytes: &[u8]) -> (r: Result<String, TranscribeError>)
    ensures
        match transcript_of(bytes@) {
            Ok(t) => r matches Ok(s) && s@ == t,
            Err(e) => r == Err::<String, TranscribeError>(e),
        },
{
    match string_field(bytes, "text") {
        Some(t) => Ok(trim(t.as_str())),
        None => Err(TranscribeError::MalformedOutput),
    }
}

impl Transcribe {
    pub fn new(audio_file: String, model: String) -> (r: Self)
        ensures
            r.audio_file == audio_file,
            r.model == model,
            r.lang is None,
            r.temperature is None,
    {
        Transcribe { audio_file, model, lang: None, temperature: None }
    }

    /// Sets the language hint.
    pub fn lang(self, lang: String) -> (r: Self)
        ensures
            r.audio_file == self.audio_file,
            r.model == self.model,
            r.lang == Some(lang),
            r.temperature == self.temperature,
    {
        Transcribe { lang: Some(lang), ..self }
    }

    /// Sets the sampling temperature, in hundredths; it lies between 0.00 and 2.00.
    pub fn temperature(self, hundredths: u32) -> (r: Self)
        requires
            hundredths <= 200,
        ensures
            r.audio_file == self.audio_file,
            r.model == self.model,
            r.lang == self.lang,
            r.temperature == Some(hundredths),
    {
        Transcribe { temperature: Some(hundredths), ..self }
    }

    /// Where the tool writes its result inside `scratch_dir`: the audio file's
    /// name with the extension `json`.
    pub fn result_path(&self, scratch_dir: &str) -> (r: Result<String, TranscribeError>)
        ensures
            match file_name_of(self.audio_file@) {
                Some(n) => r matches Ok(p) && p@ == join_path(
                    scratch_dir@,
                    with_extension_of(n, "json"@),
                ),
                None => r == Err::<String, TranscribeError>(TranscribeError::NoFileName),
            },
    {
        match file_name(self.audio_file.as_str()) {
            Some(n) => {
                proof {
                    reveal_strlit("json");
                }
                let json_name = with_extension(n.as_str(), "json");
                Ok(join(scratch_dir, json_name.as_str()))
            },
            None => Err(TranscribeError::NoFileName),
        }
    }

    /// The arguments with which the tool is run (see `tool_args`).
    pub fn args(&self, scratch_dir: &str) -> (r: Vec<String>)
        requires
            self.temperature matches Some(h) ==> h <= 200,
        ensures
            r@.map_values(|s: String| s@) == tool_args(*self, scratch_dir@),
    {
        let mut r: Vec<String> = Vec::new();
        r.push(self.audio_file.clone());
        r.push(String::from_str("--output_format"));
        r.push(String::from_str("json"));
        r.push(String::from_str("--output_dir"));
        r.push(String::from_str(scratch_dir));
        r.push(String::from_str("--model"));
        r.push(self.model.clone());
        match &self.lang {
            Some(l) => {
                r.push(String::from_str("--language"));
                r.push(l.clone());
            },
            None => {},
        }
        match self.temperature {
            Some(h) => {
                r.push(String::from_str("--temperature"));
                r.push(format_temperature(h));
            },
            None => {},
        }
        assert(r@.map_values(|s: String| s@) =~= tool_args(*self, scratch_dir@));
        r
    }

    /// The transcript, from the contents of the tool's result file, or
    /// `MissingOutput` where the tool wrote none.
    pub fn transcribe(&self, result_file: Option<Vec<u8>>) -> (r: Result<String, TranscribeError>)
        ensures
            match result_file {
                None => r == Err::<String, TranscribeError>(TranscribeError::MissingOutput),
                Some(b) => match transcript_of(b@) {
                    Ok(t) => r matches Ok(s) && s@ == t,
                    Err(e) => r == Err::<String, TranscribeError>(e),
                },
            },
    {
        match result_file {
            None => Err(TranscribeError::MissingOutput),
            Some(b) => read_transcript(b.as_slice()),
        }
    }
}

} // verus!
