//! The server's key pair: read from a file, or drawn and written to one.

use crate::crypto::{
    base64_decode, base64_encode, bytes_view, generate_keypair, SECRET_KEY_BYTES,
};
use crate::text::{chars_of, trim};
use vstd::prelude::*;

verus! {

/// The file that holds the secret key, in base64.
pub const SECRET_KEY_FILE: &'static str = "id_ed25519";

/// The file that holds the public key, in base64.
pub const PUBLIC_KEY_FILE: &'static str = "id_ed25519.pub";

/// How often another pair is drawn for the sake of its public key's text.
pub const MAX_REDRAWS: u32 = 300;

/// How many characters the text of a public key has.
pub const PUBLIC_TEXT_CHARS: usize = 44;

/// What became of the attempt to read the file with the secret key.
#[derive(Debug)]
pub enum KeyFile {
    /// It could not be opened.
    Missing,
    /// It was opened and could not be read as text.
    Unreadable,
    /// It was read.
    Contents(String),
}

/// A key pair that was drawn, and what to write of it to the two files.
pub struct GeneratedKeys {
    pub public_key: [u8; 32],
    pub secret_key: [u8; 64],
    pub public_text: String,
    pub secret_text: String,
}

/// What to do about the key pair.
pub enum KeyStep {
    /// The key pair was read: the text of the public key, and the secret key.
    Loaded { public_text: String, secret_key: [u8; 64] },
    /// The file holds no secret key: the server cannot run.
    Malformed,
    /// A new pair was drawn: write it to the files.
    Write(GeneratedKeys),
    /// There is no key pair.
    Nothing,
}

/// The secret key in decoded bytes, if they are as many as one has.
pub open spec fn secret_key_in(decoded: Option<Seq<u8>>) -> Option<Seq<u8>> {
    match decoded {
        Some(bytes) => if bytes.len() == SECRET_KEY_BYTES {
            Some(bytes)
        } else {
            None
        },
        None => None,
    }
}

/// The secret key that a file's contents spell: base64, with white space around it.
pub open spec fn secret_key_of(contents: Seq<char>) -> Option<Seq<u8>> {
    secret_key_in(crate::crypto::base64_bytes(crate::text::trimmed(contents)))
}

/// The text of the public key with which a secret key ends.
pub open spec fn public_text_of(secret_key: Seq<u8>) -> Seq<char> {
    crate::crypto::base64_text(secret_key.subrange(32, 64))
}

/// The text of a public key should hold none of these.
pub open spec fn is_awkward(public_text: Seq<char>) -> bool {
    public_text.contains('/') || public_text.contains(':')
}

/// A key pair that belongs together, and its texts, which read back as the same pair.
pub open spec fn keys_valid(keys: GeneratedKeys) -> bool {
    &&& crate::crypto::is_key_pair(keys.public_key@, keys.secret_key@)
    &&& keys.secret_key@.subrange(32, 64) == keys.public_key@
    &&& keys.public_text@ == crate::crypto::base64_text(keys.public_key@)
    &&& keys.public_text@.len() == PUBLIC_TEXT_CHARS
    &&& keys.secret_text@ == crate::crypto::base64_text(keys.secret_key@)
    &&& crate::text::trimmed(keys.secret_text@) == keys.secret_text@
    &&& secret_key_of(keys.secret_text@) == Some(keys.secret_key@)
    &&& public_text_of(keys.secret_key@) == keys.public_text@
}

/// Key pairs that `generate_keypair` drew one after the other: all but the last have a public key
/// with an awkward text, and so has the last only where there were as many redraws as there may be.
pub open spec fn drawn_in_turn(draws: Seq<([u8; 32], [u8; 64])>) -> bool {
    &&& 1 <= draws.len() <= MAX_REDRAWS + 1
    &&& forall|i: int|
        0 <= i < draws.len() ==> call_ensures(generate_keypair, (), #[trigger] draws[i])
    &&& forall|i: int|
        0 <= i < draws.len() - 1 ==> is_awkward(
            crate::crypto::base64_text((#[trigger] draws[i]).0@),
        )
    &&& draws.len() == MAX_REDRAWS + 1 || !is_awkward(
        crate::crypto::base64_text(draws.last().0@),
    )
}

/// The pair is the last of those that were drawn in turn.
pub open spec fn last_drawn(keys: GeneratedKeys) -> bool {
    exists|draws: Seq<([u8; 32], [u8; 64])>| #[trigger]
        drawn_in_turn(draws) && draws.last() == (keys.public_key, keys.secret_key)
}

/// The step is what to do about the key pair where the file is as given.
pub open spec fn step_follows(file: KeyFile, step: KeyStep) -> bool {
    match (file, step) {
        (KeyFile::Missing, KeyStep::Write(keys)) => keys_valid(keys) && last_drawn(keys),
        (KeyFile::Unreadable, KeyStep::Nothing) => true,
        (KeyFile::Contents(text), KeyStep::Loaded { public_text, secret_key }) => {
            &&& secret_key_of(text@) == Some(secret_key@)
            &&& public_text@ == public_text_of(secret_key@)
            &&& public_text@.len() == PUBLIC_TEXT_CHARS
        },
        (KeyFile::Contents(text), KeyStep::Malformed) => secret_key_of(text@) is None,
        _ => false,
    }
}

/// The server's keys after a step: the text of the public key, and the secret key. Without a key
/// pair the text is empty; where the server cannot run there is nothing at all. `written` says that
/// both files were created and the secret key was written.
pub open spec fn outcome(step: KeyStep, written: bool) -> Option<(Seq<char>, Option<[u8; 64]>)> {
    match step {
        KeyStep::Loaded { public_text, secret_key } => Some((public_text@, Some(secret_key))),
        KeyStep::Malformed => None,
        KeyStep::Write(keys) => if written {
            Some((keys.public_text@, Some(keys.secret_key)))
        } else {
            Some((seq![], None))
        },
        KeyStep::Nothing => Some((seq![], None)),
    }
}

/// How long to wait for the file to appear, if at all, in milliseconds.
pub fn wait_for_file(wait: u64, exists: bool) -> (milliseconds: Option<u64>)
    ensures
        milliseconds == (if wait > 0 && !exists {
            Some(wait)
        } else {
            None
        }),
{
    if wait > 0 && !exists {
        Some(wait)
    } else {
        None
    }
}

/// The secret key in decoded bytes.
pub fn secret_key_from(decoded: &Option<Vec<u8>>) -> (secret_key: Option<[u8; 64]>)
    ensures
        match secret_key {
            Some(key) => secret_key_in(bytes_view(*decoded)) == Some(key@),
            None => secret_key_in(bytes_view(*decoded)) is None,
        },
{
    match decoded {
        Some(bytes) => {
            if bytes.len() != SECRET_KEY_BYTES {
                return None;
            }
            let mut key: [u8; 64] = [0u8; 64];
            for i in 0..64
                invariant
                    bytes@.len() == 64,
                    forall|j: int| 0 <= j < i ==> key@[j] == bytes@[j],
            {
                key[i] = bytes[i];
            }
            assert(key@ =~= bytes@);
            Some(key)
        },
        None => None,
    }
}

/// Reads the key pair from the contents of the file: the text of the public key, and the secret
/// key. There is none where the contents do not spell a secret key.
pub fn load_keys(contents: &str) -> (keys: Option<(String, [u8; 64])>)
    ensures
        match keys {
            Some((public_text, secret_key)) => {
                &&& secret_key_of(contents@) == Some(secret_key@)
                &&& public_text@ == public_text_of(secret_key@)
                &&& public_text@.len() == PUBLIC_TEXT_CHARS
            },
            None => secret_key_of(contents@) is None,
        },
{
    let text = trim(contents);
    let decoded = base64_decode(text.as_str());
    match secret_key_from(&decoded) {
        Some(secret_key) => {
            let public_text = base64_encode(vstd::slice::slice_subrange(&secret_key, 32, 64));
            Some((public_text, secret_key))
        },
        None => None,
    }
}

/// Whether to draw another pair: where the text of the public key is awkward, and not too many
/// were drawn already.
pub fn needs_another(public_text: &str, redraws: u32) -> (again: bool)
    ensures
        again == (redraws < MAX_REDRAWS && is_awkward(public_text@)),
{
    if redraws >= MAX_REDRAWS {
        return false;
    }
    let chars = chars_of(public_text);
    for i in 0..chars.len()
        invariant
            chars@ == public_text@,
            forall|j: int| 0 <= j < i ==> public_text@[j] != '/' && public_text@[j] != ':',
    {
        if chars[i] == '/' || chars[i] == ':' {
            assert(public_text@.contains(public_text@[i as int]));
            return redraws < MAX_REDRAWS;
        }
    }
    false
}

fn draw_keys() -> (keys: GeneratedKeys)
    ensures
        keys_valid(keys),
        call_ensures(generate_keypair, (), (keys.public_key, keys.secret_key)),
{
    let draw = generate_keypair;
    let (public_key, secret_key) = draw();
    let public_text = base64_encode(&public_key);
    let secret_text = base64_encode(&secret_key);
    proof {
        lemma_trimmed_is_same(secret_text@);
    }
    GeneratedKeys { public_key, secret_key, public_text, secret_text }
}

/// Draws a key pair, and others in its place as long as the text of the public key is awkward, but
/// no more than `MAX_REDRAWS`.
pub fn generate_keys() -> (keys: GeneratedKeys)
    ensures
        keys_valid(keys),
        last_drawn(keys),
{
    let mut keys = draw_keys();
    let mut redraws: u32 = 0;
    let ghost mut draws = seq![(keys.public_key, keys.secret_key)];
    while needs_another(keys.public_text.as_str(), redraws)
        invariant
            keys_valid(keys),
            redraws <= MAX_REDRAWS,
            draws.len() == redraws + 1,
            draws.last() == (keys.public_key, keys.secret_key),
            forall|i: int|
                0 <= i < draws.len() ==> call_ensures(generate_keypair, (), #[trigger] draws[i]),
            forall|i: int|
                0 <= i < draws.len() - 1 ==> is_awkward(
                    crate::crypto::base64_text((#[trigger] draws[i]).0@),
                ),
        decreases MAX_REDRAWS - redraws,
    {
        keys = draw_keys();
        redraws = redraws + 1;
        proof {
            draws = draws.push((keys.public_key, keys.secret_key));
        }
    }
    assert(drawn_in_turn(draws));
    keys
}

/// What to do about the key pair, now that the file was read or not.
pub fn gen_sk(file: &KeyFile) -> (step: KeyStep)
    ensures
        step_follows(*file, step),
{
    match file {
        KeyFile::Missing => KeyStep::Write(generate_keys()),
        KeyFile::Unreadable => KeyStep::Nothing,
        KeyFile::Contents(text) => match load_keys(text.as_str()) {
            Some((public_text, secret_key)) => KeyStep::Loaded { public_text, secret_key },
            None => KeyStep::Malformed,
        },
    }
}

/// The server's keys after a step was taken. A pair that was drawn counts only where both files
/// were created and the secret key was written; there are none, nor does the server run, where the
/// file holds no secret key.
pub fn server_keys(
    step: KeyStep,
    public_file_created: bool,
    secret_file_created: bool,
    secret_key_written: bool,
) -> (result: Option<(String, Option<[u8; 64]>)>)
    ensures
        match result {
            Some((text, key)) => outcome(
                step,
                public_file_created && secret_file_created && secret_key_written,
            ) == Some((text@, key)),
            None => outcome(
                step,
                public_file_created && secret_file_created && secret_key_written,
            ) is None,
        },
{
    match step {
        KeyStep::Loaded { public_text, secret_key } => Some((public_text, Some(secret_key))),
        KeyStep::Malformed => None,
        KeyStep::Write(keys) => if public_file_created && secret_file_created
            && secret_key_written {
            Some((keys.public_text, Some(keys.secret_key)))
        } else {
            Some((String::new(), None))
        },
        KeyStep::Nothing => Some((String::new(), None)),
    }
}

/// The text of the public key is empty exactly where there is no key pair; else it is the text of
/// the public key with which the secret key ends, and has 44 characters. There is no key pair
/// exactly where the file was opened and could not be read, or could not be opened and the new pair
/// was not written. The server does not run exactly where the file holds no secret key.
pub proof fn law_text_is_empty_without_keys(file: KeyFile, step: KeyStep, written: bool)
    ensures
        step_follows(file, step) ==> match outcome(step, written) {
            Some((text, Some(key))) => {
                &&& text == public_text_of(key@)
                &&& text.len() == PUBLIC_TEXT_CHARS
                &&& match file {
                    KeyFile::Contents(contents) => secret_key_of(contents@) == Some(key@),
                    KeyFile::Missing => written,
                    KeyFile::Unreadable => false,
                }
            },
            Some((text, None)) => {
                &&& text.len() == 0
                &&& file is Unreadable || file is Missing && !written
            },
            None => file matches KeyFile::Contents(contents) && secret_key_of(contents@) is None,
        },
{
}

/// A public key with an awkward text is kept only after as many redraws as there may be: a pair to
/// be written is the last of `MAX_REDRAWS + 1` that all have one, or its text is not awkward.
pub proof fn law_awkward_text_is_last_resort(file: KeyFile, keys: GeneratedKeys) -> (draws: Seq<
    ([u8; 32], [u8; 64]),
>)
    ensures
        step_follows(file, KeyStep::Write(keys)) && is_awkward(keys.public_text@) ==> {
            &&& draws.len() == MAX_REDRAWS + 1
            &&& draws.last() == (keys.public_key, keys.secret_key)
            &&& forall|i: int|
                0 <= i < draws.len() ==> call_ensures(generate_keypair, (), #[trigger] draws[i])
                    && is_awkward(crate::crypto::base64_text(draws[i].0@))
        },
{
    choose|draws: Seq<([u8; 32], [u8; 64])>| #[trigger]
        drawn_in_turn(draws) && draws.last() == (keys.public_key, keys.secret_key)
}

/// What was written is read back: where the file holds the text of a secret key that was drawn,
/// with any white space around it, the step is to load the same pair.
pub proof fn law_written_keys_are_read_back(
    keys: GeneratedKeys,
    front: Seq<char>,
    back: Seq<char>,
    contents: String,
    step: KeyStep,
)
    requires
        crate::text::all_white(front),
        crate::text::all_white(back),
        contents@ == front + keys.secret_text@ + back,
    ensures
        keys_valid(keys) && step_follows(KeyFile::Contents(contents), step) ==> (step matches
            KeyStep::Loaded { public_text, secret_key } && public_text@ == keys.public_text@
            && secret_key@ == keys.secret_key@),
{
    crate::text::law_white_space_around_does_not_count(front, keys.secret_text@, back);
}

proof fn lemma_trimmed_is_same(text: Seq<char>)
    requires
        forall|i: int| 0 <= i < text.len() ==> crate::crypto::is_base64_char(#[trigger] text[i]),
    ensures
        crate::text::trimmed(text) == text,
{
    if text.len() > 0 {
        assert(crate::crypto::is_base64_char(text[0]));
        assert(crate::crypto::is_base64_char(text[text.len() - 1]));
    }
}

/// A file holds a secret key exactly where its text, without the white space around it, decodes to
/// 64 bytes; these are the key, and the text of the public key is that of the last 32.
pub proof fn law_key_in_a_file(contents: Seq<char>, key: Seq<u8>)
    ensures
        secret_key_of(contents) == Some(key) <==> key.len() == 64 && crate::crypto::base64_bytes(
            crate::text::trimmed(contents),
        ) == Some(key),
        secret_key_of(contents) is None <==> !(crate::crypto::base64_bytes(
            crate::text::trimmed(contents),
        ) matches Some(bytes) && bytes.len() == 64),
        key.len() == 64 ==> public_text_of(key) == crate::crypto::base64_text(key.skip(32)),
{
    if key.len() == 64 {
        assert(key.subrange(32, 64) =~= key.skip(32));
    }
}

/// A text is awkward exactly where a slash or a colon stands in it.
pub proof fn law_awkward_text(text: Seq<char>)
    ensures
        is_awkward(text) <==> exists|i: int|
            0 <= i < text.len() && (#[trigger] text[i] == '/' || text[i] == ':'),
{
    if exists|i: int| 0 <= i < text.len() && (#[trigger] text[i] == '/' || text[i] == ':') {
        let i = choose|i: int|
            0 <= i < text.len() && (#[trigger] text[i] == '/' || text[i] == ':');
        assert(text.contains(text[i]));
    }
}

/// At most 301 pairs are drawn. All but the last have a slash or a colon in the text of the public
/// key, and so has the last only where 301 were drawn.
pub proof fn law_redraws(draws: Seq<([u8; 32], [u8; 64])>, i: int)
    ensures
        drawn_in_turn(draws) ==> {
            let text = crate::crypto::base64_text(draws[i].0@);
            let clean = !text.contains('/') && !text.contains(':');
            &&& 1 <= draws.len() <= 301
            &&& 0 <= i < draws.len() ==> call_ensures(generate_keypair, (), draws[i])
            &&& 0 <= i < draws.len() - 1 ==> !clean
            &&& i == draws.len() - 1 && draws.len() < 301 ==> clean
        },
{
}

/// Reading the contents of the file: the secret key is what the text decodes to, where these are 64
/// bytes, and the text of the public key is that of the last 32 and has 44 characters; else there
/// is nothing.
pub proof fn law_loaded_keys(contents: &str, keys: Option<(String, [u8; 64])>)
    requires
        call_ensures(load_keys, (contents,), keys),
    ensures
        match keys {
            Some((public_text, secret_key)) => {
                &&& crate::crypto::base64_bytes(crate::text::trimmed(contents@)) == Some(
                    secret_key@,
                )
                &&& public_text@ == crate::crypto::base64_text(secret_key@.skip(32))
                &&& public_text@.len() == 44
            },
            None => !(crate::crypto::base64_bytes(
                crate::text::trimmed(contents@),
            ) matches Some(bytes) && bytes.len() == 64),
        },
{
    match keys {
        Some((public_text, secret_key)) => {
            law_key_in_a_file(contents@, secret_key@);
        },
        None => {
            law_key_in_a_file(contents@, seq![]);
        },
    }
}

/// From the file to the server's keys. A file with a key gives that key. A file without one stops
/// the server. A file that cannot be read as text gives none. Where there is no file, the pair that
/// was drawn counts exactly where both files were created and the secret key was written.
pub proof fn law_server_keys(
    file: KeyFile,
    step: KeyStep,
    public_file_created: bool,
    secret_file_created: bool,
    secret_key_written: bool,
    result: Option<(String, Option<[u8; 64]>)>,
)
    requires
        call_ensures(gen_sk, (&file,), step),
        call_ensures(
            server_keys,
            (step, public_file_created, secret_file_created, secret_key_written),
            result,
        ),
    ensures
        file matches KeyFile::Contents(contents) ==> {
            &&& result is None <==> !(crate::crypto::base64_bytes(
                crate::text::trimmed(contents@),
            ) matches Some(bytes) && bytes.len() == 64)
            &&& result matches Some((text, key)) ==> (key matches Some(k) && Some(k@)
                == crate::crypto::base64_bytes(crate::text::trimmed(contents@)) && text@
                == crate::crypto::base64_text(k@.skip(32)))
        },
        file is Unreadable ==> (result matches Some((text, key)) && text@.len() == 0
            && key is None),
        file is Missing ==> (result matches Some((text, key)) && if public_file_created
            && secret_file_created && secret_key_written {
            &&& key matches Some(k)
            &&& text@ == crate::crypto::base64_text(k@.skip(32))
            &&& text@.len() == 44
            &&& step matches KeyStep::Write(keys)
            &&& keys.secret_key == k
            &&& keys.public_text@ == text@
            &&& keys.secret_text@ == crate::crypto::base64_text(k@)
            &&& crate::crypto::is_key_pair(keys.public_key@, k@)
        } else {
            text@.len() == 0 && key is None
        }),
{
    match file {
        KeyFile::Contents(contents) => {
            law_key_in_a_file(contents@, seq![]);
            match step {
                KeyStep::Loaded { public_text, secret_key } => {
                    law_key_in_a_file(contents@, secret_key@);
                },
                _ => {},
            }
        },
        KeyFile::Missing => {
            match step {
                KeyStep::Write(keys) => {
                    law_key_in_a_file(seq![], keys.secret_key@);
                },
                _ => {},
            }
        },
        KeyFile::Unreadable => {},
    }
}

/// Another pair is drawn exactly where fewer than 300 were drawn again and a slash or a colon stands
/// in the text. The wait for the file is the one that was asked for, where there is no file.
pub proof fn law_when_to_go_on(
    public_text: &str,
    redraws: u32,
    again: bool,
    wait: u64,
    exists_already: bool,
    milliseconds: Option<u64>,
)
    requires
        call_ensures(needs_another, (public_text, redraws), again),
        call_ensures(wait_for_file, (wait, exists_already), milliseconds),
    ensures
        again <==> redraws < 300 && exists|i: int|
            0 <= i < public_text@.len() && (#[trigger] public_text@[i] == '/' || public_text@[i]
                == ':'),
        milliseconds is Some <==> wait > 0 && !exists_already,
        milliseconds matches Some(ms) ==> ms == wait,
{
    law_awkward_text(public_text@);
}

/// The files are `id_ed25519` and `id_ed25519.pub`.
pub proof fn law_key_files()
    ensures
        SECRET_KEY_FILE@ == "id_ed25519"@,
        PUBLIC_KEY_FILE@ == SECRET_KEY_FILE@ + ".pub"@,
{
    reveal_strlit("id_ed25519");
    reveal_strlit("id_ed25519.pub");
    reveal_strlit(".pub");
    assert(PUBLIC_KEY_FILE@ =~= SECRET_KEY_FILE@ + ".pub"@);
}

/// The pair that is generated belongs together, its texts are those of its keys, and it is the last
/// that was drawn.
pub proof fn law_generated_keys(keys: GeneratedKeys)
    requires
        call_ensures(generate_keys, (), keys),
    ensures
        crate::crypto::is_key_pair(keys.public_key@, keys.secret_key@),
        keys.secret_key@.skip(32) == keys.public_key@,
        keys.public_text@ == crate::crypto::base64_text(keys.public_key@),
        keys.secret_text@ == crate::crypto::base64_text(keys.secret_key@),
        exists|draws: Seq<([u8; 32], [u8; 64])>| #[trigger]
            drawn_in_turn(draws) && draws.last() == (keys.public_key, keys.secret_key),
{
    assert(keys.secret_key@.subrange(32, 64) =~= keys.secret_key@.skip(32));
}

} // verus!
