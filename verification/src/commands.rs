//! Shell commands that are typed into a terminal or run in one: file transfers, tmux, ssh.
use vstd::prelude::*;
use vstd::string::*;
use crate::errors::SessionError;
use crate::quote::{is_plain, shell_escape, shell_escaped};
use crate::table::views;
use crate::text::{alphanumeric, ascii_space, chars_of, is_alphanumeric, is_ascii_space, Text};
use crate::transfer::{DOWNLOAD_BEGIN_MARKER, DOWNLOAD_END_MARKER, DOWNLOAD_ERROR_MARKER};

verus! {

// ---------------------------------------------------------------------------
// File transfers
// ---------------------------------------------------------------------------

/// A character that a transfer id may hold.
pub open spec fn is_id_char(c: char) -> bool {
    is_alphanumeric(c) || c == '_' || c == '-'
}

/// Whether `id` can name a transfer.
pub open spec fn valid_transfer_id(id: Text) -> bool {
    id.len() > 0 && forall|i: int| 0 <= i < id.len() ==> is_id_char(#[trigger] id[i])
}

/// Accepts an id that can name a transfer.
pub fn validate_transfer_id(id: &str) -> (res: Result<(), SessionError>)
    ensures
        valid_transfer_id(id@) ==> res is Ok,
        !valid_transfer_id(id@) ==> res == Err::<(), SessionError>(SessionError::InvalidTransferId),
{
    let chars = chars_of(id);
    if chars.len() == 0 {
        return Err(SessionError::InvalidTransferId);
    }
    let mut i: usize = 0;
    while i < chars.len()
        invariant
            chars@ == id@,
            0 <= i <= chars@.len(),
            forall|j: int| 0 <= j < i ==> is_id_char(#[trigger] chars@[j]),
        decreases chars@.len() - i,
    {
        let c = chars[i];
        if !(alphanumeric(c) || c == '_' || c == '-') {
            assert(!is_id_char(id@[i as int]));
            return Err(SessionError::InvalidTransferId);
        }
        i += 1;
    }
    Ok(())
}

/// The command that prints a file between download markers.
pub open spec fn download_text(id: Text, path: Text) -> Text {
    "__wt_id="@ + shell_escaped(id) + "; __wt_path="@ + shell_escaped(path)
        + "; if [ -f \"$__wt_path\" ] && [ -r \"$__wt_path\" ]; then __wt_name=$(basename -- \"$__wt_path\" 2>/dev/null || basename \"$__wt_path\"); echo \""@
        + DOWNLOAD_BEGIN_MARKER@
        + "$__wt_id:$(printf '%s' \"$__wt_name\" | base64 | tr -d '\\n')\"; if base64 < \"$__wt_path\"; then echo \""@
        + DOWNLOAD_END_MARKER@ + "$__wt_id\"; else echo \""@ + DOWNLOAD_ERROR_MARKER@
        + "$__wt_id:base64 failed\"; fi; else echo \""@ + DOWNLOAD_ERROR_MARKER@
        + "$__wt_id:file not readable\"; fi; unset __wt_id __wt_path __wt_name\r"@
}

/// The command that prints a file between download markers.
pub fn file_download_command(id: &str, path: &str) -> (res: String)
    ensures
        res@ == download_text(id@, path@),
{
    let path = shell_escape(path);
    let id = shell_escape(id);
    let mut out = "__wt_id=".to_string();
    out.append(id.as_str());
    out.append("; __wt_path=");
    out.append(path.as_str());
    out.append(
        "; if [ -f \"$__wt_path\" ] && [ -r \"$__wt_path\" ]; then __wt_name=$(basename -- \"$__wt_path\" 2>/dev/null || basename \"$__wt_path\"); echo \"",
    );
    out.append(DOWNLOAD_BEGIN_MARKER);
    out.append(
        "$__wt_id:$(printf '%s' \"$__wt_name\" | base64 | tr -d '\\n')\"; if base64 < \"$__wt_path\"; then echo \"",
    );
    out.append(DOWNLOAD_END_MARKER);
    out.append("$__wt_id\"; else echo \"");
    out.append(DOWNLOAD_ERROR_MARKER);
    out.append("$__wt_id:base64 failed\"; fi; else echo \"");
    out.append(DOWNLOAD_ERROR_MARKER);
    out.append("$__wt_id:file not readable\"; fi; unset __wt_id __wt_path __wt_name\r");
    out
}

/// Where an upload to `path` is put together.
pub open spec fn tmp_path_text(path: Text, id: Text) -> Text {
    path + ".webterminal."@ + id + ".tmp"@
}

/// Where an upload to `path` is put together.
pub fn upload_tmp_path(path: &str, id: &str) -> (res: String)
    ensures
        res@ == tmp_path_text(path@, id@),
{
    let mut out = path.to_string();
    out.append(".webterminal.");
    out.append(id);
    out.append(".tmp");
    out
}

/// `path` with `ending` behind it, as a shell word.
pub open spec fn beside(path: Text, ending: Text) -> Text {
    shell_escaped(path + ending)
}

/// `path` with `ending` behind it, as a shell word.
fn beside_path(path: &str, ending: &str) -> (res: String)
    ensures
        res@ == beside(path@, ending@),
{
    let mut full = path.to_string();
    full.append(ending);
    shell_escape(full.as_str())
}

/// The command that starts an upload.
pub open spec fn upload_start_text(path: Text, tmp_path: Text) -> Text {
    "__wt_path="@ + shell_escaped(path) + "; : > "@ + beside(tmp_path, ".b64"@) + "\r"@
}

/// The command that starts an upload.
pub fn file_upload_start_command(path: &str, tmp_path: &str) -> (res: String)
    ensures
        res@ == upload_start_text(path@, tmp_path@),
{
    let path = shell_escape(path);
    let tmp_b64 = beside_path(tmp_path, ".b64");
    let mut out = "__wt_path=".to_string();
    out.append(path.as_str());
    out.append("; : > ");
    out.append(tmp_b64.as_str());
    out.append("\r");
    out
}

/// A character of base64 text.
pub open spec fn is_base64_char(c: char) -> bool {
    is_alphanumeric(c) || c == '+' || c == '/' || c == '='
}

/// `data` without ASCII white space.
pub open spec fn compacted(data: Text) -> Text
    decreases data.len(),
{
    if data.len() == 0 {
        seq![]
    } else if is_ascii_space(data.last()) {
        compacted(data.drop_last())
    } else {
        compacted(data.drop_last()).push(data.last())
    }
}

/// Whether `data` holds nothing but base64 text.
pub open spec fn is_base64(data: Text) -> bool {
    forall|i: int| 0 <= i < data.len() ==> is_base64_char(#[trigger] data[i])
}

/// The command that adds a piece to an upload; nothing for an empty piece.
pub open spec fn upload_chunk_text(data: Text, tmp_path: Text) -> Text {
    if compacted(data).len() == 0 {
        seq![]
    } else {
        "printf '%s' "@ + shell_escaped(compacted(data)) + " >> "@ + beside(tmp_path, ".b64"@)
            + "\r"@
    }
}

/// `data` without ASCII white space.
fn compact(data: &str) -> (res: String)
    ensures
        res@ == compacted(data@),
{
    let chars = chars_of(data);
    let mut out = String::new();
    let mut i: usize = 0;
    assert(data@.take(0) =~= Seq::<char>::empty());
    while i < chars.len()
        invariant
            chars@ == data@,
            0 <= i <= chars@.len(),
            out@ == compacted(data@.take(i as int)),
        decreases chars@.len() - i,
    {
        let c = chars[i];
        proof {
            let step = data@.take(i + 1);
            assert(step.drop_last() == data@.take(i as int));
            assert(step.last() == c);
        }
        if !ascii_space(c) {
            out.push(c);
        }
        i += 1;
    }
    assert(data@.take(i as int) == data@);
    out
}

/// Whether `data` holds nothing but base64 text.
fn only_base64(data: &str) -> (res: bool)
    ensures
        res == is_base64(data@),
{
    let chars = chars_of(data);
    let mut i: usize = 0;
    while i < chars.len()
        invariant
            chars@ == data@,
            0 <= i <= chars@.len(),
            forall|j: int| 0 <= j < i ==> is_base64_char(#[trigger] chars@[j]),
        decreases chars@.len() - i,
    {
        let c = chars[i];
        if !(alphanumeric(c) || c == '+' || c == '/' || c == '=') {
            assert(!is_base64_char(data@[i as int]));
            return false;
        }
        i += 1;
    }
    true
}

/// The command that adds a piece to an upload.
pub fn file_upload_chunk_command(data: &str, tmp_path: &str) -> (res: Result<String, SessionError>)
    ensures
        match res {
            Ok(command) => is_base64(compacted(data@)) && command@ == upload_chunk_text(
                data@,
                tmp_path@,
            ),
            Err(e) => !is_base64(compacted(data@)) && e == SessionError::InvalidUploadChunk,
        },
{
    let compact = compact(data);
    if compact.as_str().is_empty() {
        return Ok(String::new());
    }
    if !only_base64(compact.as_str()) {
        return Err(SessionError::InvalidUploadChunk);
    }
    let tmp_b64 = beside_path(tmp_path, ".b64");
    let word = shell_escape(compact.as_str());
    let mut out = "printf '%s' ".to_string();
    out.append(word.as_str());
    out.append(" >> ");
    out.append(tmp_b64.as_str());
    out.append("\r");
    Ok(out)
}

/// The command that removes the mark of an earlier upload.
pub open spec fn upload_reset_text(tmp_path: Text) -> Text {
    "rm -f "@ + beside(tmp_path, ".ok"@) + "\r"@
}

/// The command that decodes what was uploaded, and leaves a mark where that succeeds.
pub open spec fn upload_decode_text(tmp_path: Text) -> Text {
    let b64 = beside(tmp_path, ".b64"@);
    let tmp = shell_escaped(tmp_path);
    "(base64 -d < "@ + b64 + " > "@ + tmp + " 2>/dev/null || base64 -D < "@ + b64 + " > "@ + tmp
        + " 2>/dev/null) && touch "@ + beside(tmp_path, ".ok"@) + "\r"@
}

/// The command that moves what was decoded to its place, or cleans up.
pub open spec fn upload_place_text(path: Text, tmp_path: Text) -> Text {
    let to = shell_escaped(path);
    let b64 = beside(tmp_path, ".b64"@);
    let ok = beside(tmp_path, ".ok"@);
    let tmp = shell_escaped(tmp_path);
    "if [ -f "@ + ok + " ]; then mv "@ + tmp + " "@ + to + " && rm -f "@ + b64 + " "@ + ok
        + " && printf '\\n[webterminal upload complete: %s]\\n' "@ + to + "; else rm -f "@ + tmp
        + " "@ + b64 + " "@ + ok
        + "; printf '\\n[webterminal upload failed: base64 decode failed]\\n'; fi\r"@
}

/// The commands that finish an upload.
pub open spec fn upload_finish_texts(path: Text, tmp_path: Text) -> Seq<Text> {
    seq![
        upload_reset_text(tmp_path),
        upload_decode_text(tmp_path),
        upload_place_text(path, tmp_path),
    ]
}

/// The commands that finish an upload.
pub fn file_upload_finish_commands(path: &str, tmp_path: &str) -> (res: Vec<String>)
    ensures
        views(res@) == upload_finish_texts(path@, tmp_path@),
{
    let to = shell_escape(path);
    let b64 = beside_path(tmp_path, ".b64");
    let ok = beside_path(tmp_path, ".ok");
    let tmp = shell_escape(tmp_path);
    let mut reset = "rm -f ".to_string();
    reset.append(ok.as_str());
    reset.append("\r");
    let mut decode = "(base64 -d < ".to_string();
    decode.append(b64.as_str());
    decode.append(" > ");
    decode.append(tmp.as_str());
    decode.append(" 2>/dev/null || base64 -D < ");
    decode.append(b64.as_str());
    decode.append(" > ");
    decode.append(tmp.as_str());
    decode.append(" 2>/dev/null) && touch ");
    decode.append(ok.as_str());
    decode.append("\r");
    let mut place = "if [ -f ".to_string();
    place.append(ok.as_str());
    place.append(" ]; then mv ");
    place.append(tmp.as_str());
    place.append(" ");
    place.append(to.as_str());
    place.append(" && rm -f ");
    place.append(b64.as_str());
    place.append(" ");
    place.append(ok.as_str());
    place.append(" && printf '\\n[webterminal upload complete: %s]\\n' ");
    place.append(to.as_str());
    place.append("; else rm -f ");
    place.append(tmp.as_str());
    place.append(" ");
    place.append(b64.as_str());
    place.append(" ");
    place.append(ok.as_str());
    place.append("; printf '\\n[webterminal upload failed: base64 decode failed]\\n'; fi\r");
    let mut out: Vec<String> = Vec::new();
    out.push(reset);
    out.push(decode);
    out.push(place);
    assert(views(out@) =~= upload_finish_texts(path@, tmp_path@));
    out
}

// ---------------------------------------------------------------------------
// Laws
// ---------------------------------------------------------------------------

/// An id that can name a transfer is a shell word as it stands, so that the markers which the shell
/// prints hold the id that is awaited.
pub proof fn law_transfer_ids_need_no_quotes(id: Text)
    requires
        valid_transfer_id(id),
    ensures
        shell_escaped(id) == id,
{
    assert forall|i: int| 0 <= i < id.len() implies is_plain(#[trigger] id[i]) by {
        assert(is_id_char(id[i]));
    }
}

proof fn lemma_compacted_concat(a: Text, b: Text)
    ensures
        compacted(a + b) == compacted(a) + compacted(b),
    decreases b.len(),
{
    if b.len() == 0 {
        assert(a + b =~= a);
        assert(compacted(a) + compacted(b) =~= compacted(a));
    } else {
        lemma_compacted_concat(a, b.drop_last());
        assert((a + b).drop_last() =~= a + b.drop_last());
        assert((a + b).last() == b.last());
        assert(compacted(a + b) =~= compacted(a) + compacted(b));
    }
}

/// How an upload is cut into pieces does not matter: the pieces add up to what they were cut from,
/// and each of them is accepted if and only if all of it is base64 text.
pub proof fn law_upload_pieces_add_up(a: Text, b: Text)
    ensures
        compacted(a + b) == compacted(a) + compacted(b),
        is_base64(compacted(a + b)) <==> is_base64(compacted(a)) && is_base64(compacted(b)),
{
    lemma_compacted_concat(a, b);
    let x = compacted(a);
    let y = compacted(b);
    if is_base64(x + y) {
        assert forall|i: int| 0 <= i < x.len() implies is_base64_char(#[trigger] x[i]) by {
            assert((x + y)[i] == x[i]);
        }
        assert forall|i: int| 0 <= i < y.len() implies is_base64_char(#[trigger] y[i]) by {
            assert((x + y)[x.len() + i] == y[i]);
        }
    }
}

} // verus!
