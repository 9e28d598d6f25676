//! What the commands of file transfers come to when the shell reads them.
use vstd::prelude::*;
use crate::commands::{
    beside, compacted, download_text, is_base64, is_id_char, law_upload_pieces_add_up,
    tmp_path_text, upload_chunk_text, upload_decode_text, upload_finish_texts, upload_place_text,
    upload_reset_text, upload_start_text, valid_transfer_id,
};
use crate::quote::{law_shell_escape_is_read_back, shell_escaped, shell_word};
use crate::text::Text;
use crate::text_laws::{law_ascii_space_by_code_point, law_letters_and_digits_by_code_point};

verus! {

// ---------------------------------------------------------------------------
// Ids and base64 text
// ---------------------------------------------------------------------------

/// Whether `c` is a letter or digit of ASCII, by its code point.
pub open spec fn is_letter_or_digit(c: char) -> bool {
    let n = c as u32;
    48 <= n <= 57 || 65 <= n <= 90 || 97 <= n <= 122
}

/// A transfer is named by letters, digits, underscores and hyphens, at least one.
pub proof fn law_transfer_ids_by_characters(id: Text)
    ensures
        valid_transfer_id(id) <==> id.len() > 0 && forall|i: int|
            0 <= i < id.len() ==> is_letter_or_digit(#[trigger] id[i]) || id[i] == '_' || id[i]
                == '-',
{
    assert forall|i: int| 0 <= i < id.len() implies is_id_char(#[trigger] id[i]) == (
    is_letter_or_digit(id[i]) || id[i] == '_' || id[i] == '-') by {
        law_letters_and_digits_by_code_point(id[i]);
    }
    if valid_transfer_id(id) {
        assert forall|i: int| 0 <= i < id.len() implies is_letter_or_digit(#[trigger] id[i])
            || id[i] == '_' || id[i] == '-' by {
            assert(is_id_char(id[i]));
        }
    }
}

/// Base64 text holds letters, digits and `+ / =`.
pub proof fn law_base64_by_characters(data: Text)
    ensures
        is_base64(data) <==> forall|i: int|
            0 <= i < data.len() ==> is_letter_or_digit(#[trigger] data[i]) || data[i] == '+'
                || data[i] == '/' || data[i] == '=',
{
    assert forall|i: int| 0 <= i < data.len() implies crate::commands::is_base64_char(
        #[trigger] data[i],
    ) == (is_letter_or_digit(data[i]) || data[i] == '+' || data[i] == '/' || data[i] == '=') by {
        law_letters_and_digits_by_code_point(data[i]);
    }
    if is_base64(data) {
        assert forall|i: int| 0 <= i < data.len() implies is_letter_or_digit(#[trigger] data[i])
            || data[i] == '+' || data[i] == '/' || data[i] == '=' by {
            assert(crate::commands::is_base64_char(data[i]));
        }
    }
}

/// Whether `c` is space, tab, line feed, form feed or carriage return, by its code point.
pub open spec fn is_blank(c: char) -> bool {
    let n = c as u32;
    n == 32 || n == 9 || n == 10 || n == 12 || n == 13
}

/// Of a piece of an upload, blanks are left out and every other character is kept in its place.
pub proof fn law_pieces_lose_blanks_only(a: Text, c: char, b: Text)
    ensures
        compacted(a + seq![c] + b) == compacted(a) + (if is_blank(c) {
            seq![]
        } else {
            seq![c]
        }) + compacted(b),
        compacted(seq![]) == Seq::<char>::empty(),
{
    law_ascii_space_by_code_point(c);
    law_upload_pieces_add_up(a + seq![c], b);
    law_upload_pieces_add_up(a, seq![c]);
    let none: Text = seq![];
    assert(seq![c].drop_last() =~= none);
    assert(compacted(none) == none);
    assert(compacted(seq![c]) =~= if is_blank(c) {
        none
    } else {
        seq![c]
    });
}

/// A piece of an upload that holds no blanks is kept as it is.
pub proof fn law_piece_without_blanks_is_kept(data: Text)
    requires
        forall|i: int| 0 <= i < data.len() ==> !is_blank(#[trigger] data[i]),
    ensures
        compacted(data) == data,
    decreases data.len(),
{
    if data.len() > 0 {
        let less = data.drop_last();
        let c = data.last();
        let none: Text = seq![];
        assert(!is_blank(data[data.len() - 1]));
        assert forall|i: int| 0 <= i < less.len() implies !is_blank(#[trigger] less[i]) by {
            assert(!is_blank(data[i]));
        }
        law_piece_without_blanks_is_kept(less);
        law_pieces_lose_blanks_only(less, c, none);
        assert(less + seq![c] + none =~= data);
        assert(compacted(data) =~= data);
    } else {
        assert(compacted(data) =~= data);
    }
}

// ---------------------------------------------------------------------------
// What the shell reads
// ---------------------------------------------------------------------------

/// Whether the shell reads `word` as one word that is `value`.
pub open spec fn reads(word: Text, value: Text) -> bool {
    shell_word(word) == Some(value)
}

/// Where an upload is put together: beside its place, under a name with its id.
pub proof fn law_uploads_are_put_together_apart(path: Text, id: Text, other: Text)
    ensures
        tmp_path_text(path, id) == path + (".webterminal."@ + id + ".tmp"@),
        tmp_path_text(path, id) == tmp_path_text(path, other) ==> id == other,
        tmp_path_text(path, id) != path,
{
    reveal_strlit(".webterminal.");
    reveal_strlit(".tmp");
    let a = tmp_path_text(path, id);
    let b = tmp_path_text(path, other);
    let from = path.len() as int + 13;
    assert(a =~= path + (".webterminal."@ + id + ".tmp"@));
    assert(a.len() == path.len() + 13 + id.len() + 4);
    if a == b {
        assert(a.subrange(from, a.len() - 4) =~= id);
        assert(b.subrange(from, b.len() - 4) =~= other);
    }
}

/// An upload starts with an empty file for its base64 text.
pub proof fn law_upload_starts_empty(path: Text, tmp_path: Text)
    requires
        path.len() > 0,
    ensures
        exists|to: Text, file: Text| #[trigger]
            reads(to, path) && #[trigger] reads(file, tmp_path + ".b64"@) && upload_start_text(
                path,
                tmp_path,
            ) == "__wt_path="@ + to + "; : > "@ + file + "\r"@,
{
    reveal_strlit(".b64");
    law_shell_escape_is_read_back(path);
    law_shell_escape_is_read_back(tmp_path + ".b64"@);
    assert(reads(shell_escaped(path), path));
    assert(reads(shell_escaped(tmp_path + ".b64"@), tmp_path + ".b64"@));
}

/// A piece of an upload is appended to its base64 text, all of it but its blanks.
pub proof fn law_piece_is_appended(data: Text, tmp_path: Text)
    ensures
        compacted(data).len() == 0 ==> upload_chunk_text(data, tmp_path).len() == 0,
        compacted(data).len() > 0 ==> exists|piece: Text, file: Text| #[trigger]
            reads(piece, compacted(data)) && #[trigger] reads(file, tmp_path + ".b64"@)
                && upload_chunk_text(data, tmp_path) == "printf '%s' "@ + piece + " >> "@ + file
                + "\r"@,
{
    reveal_strlit(".b64");
    law_shell_escape_is_read_back(tmp_path + ".b64"@);
    assert(reads(shell_escaped(tmp_path + ".b64"@), tmp_path + ".b64"@));
    if compacted(data).len() > 0 {
        law_shell_escape_is_read_back(compacted(data));
        assert(reads(shell_escaped(compacted(data)), compacted(data)));
    }
}

/// The words of the commands that finish an upload.
pub struct FinishWords {
    pub to: Text,
    pub tmp: Text,
    pub b64: Text,
    pub ok: Text,
}

/// Whether the words are the place of the upload, the file that is decoded, its base64 text and the
/// mark that decoding succeeded.
pub open spec fn finish_words(w: FinishWords, path: Text, tmp_path: Text) -> bool {
    &&& reads(w.to, path)
    &&& reads(w.tmp, tmp_path)
    &&& reads(w.b64, tmp_path + ".b64"@)
    &&& reads(w.ok, tmp_path + ".ok"@)
}

/// An upload is finished by removing an old mark, decoding the base64 text and, where that left a
/// mark, moving the file to its place; else all is cleaned up.
pub proof fn law_upload_is_decoded_and_placed(path: Text, tmp_path: Text)
    requires
        path.len() > 0,
        tmp_path.len() > 0,
    ensures
        exists|w: FinishWords| #[trigger]
            finish_words(w, path, tmp_path) && upload_finish_texts(path, tmp_path) == seq![
                "rm -f "@ + w.ok + "\r"@,
                "(base64 -d < "@ + w.b64 + " > "@ + w.tmp + " 2>/dev/null || base64 -D < "@ + w.b64
                    + " > "@ + w.tmp + " 2>/dev/null) && touch "@ + w.ok + "\r"@,
                "if [ -f "@ + w.ok + " ]; then mv "@ + w.tmp + " "@ + w.to + " && rm -f "@ + w.b64
                    + " "@ + w.ok + " && printf '\\n[webterminal upload complete: %s]\\n' "@ + w.to
                    + "; else rm -f "@ + w.tmp + " "@ + w.b64 + " "@ + w.ok
                    + "; printf '\\n[webterminal upload failed: base64 decode failed]\\n'; fi\r"@,
            ],
{
    reveal_strlit(".b64");
    reveal_strlit(".ok");
    law_shell_escape_is_read_back(path);
    law_shell_escape_is_read_back(tmp_path);
    law_shell_escape_is_read_back(tmp_path + ".b64"@);
    law_shell_escape_is_read_back(tmp_path + ".ok"@);
    let w = FinishWords {
        to: shell_escaped(path),
        tmp: shell_escaped(tmp_path),
        b64: shell_escaped(tmp_path + ".b64"@),
        ok: shell_escaped(tmp_path + ".ok"@),
    };
    assert(finish_words(w, path, tmp_path));
    assert(upload_finish_texts(path, tmp_path)[0] == upload_reset_text(tmp_path));
    assert(upload_finish_texts(path, tmp_path)[1] == upload_decode_text(tmp_path));
    assert(upload_finish_texts(path, tmp_path)[2] == upload_place_text(path, tmp_path));
    assert(beside(tmp_path, ".ok"@) == w.ok && beside(tmp_path, ".b64"@) == w.b64);
}

/// A download prints the begin marker with its id and the encoded name, the encoded file and the end
/// marker with its id, or the error marker with its id and a reason.
pub proof fn law_download_prints_its_markers(id: Text, path: Text)
    requires
        id.len() > 0,
        path.len() > 0,
    ensures
        exists|name: Text, file: Text| #[trigger]
            reads(name, id) && #[trigger] reads(file, path) && download_text(id, path)
                == "__wt_id="@ + name + "; __wt_path="@ + file
                + "; if [ -f \"$__wt_path\" ] && [ -r \"$__wt_path\" ]; then __wt_name=$(basename -- \"$__wt_path\" 2>/dev/null || basename \"$__wt_path\"); echo \""@
                + "__WEBTERMINAL_DOWNLOAD_BEGIN__:"@
                + "$__wt_id:$(printf '%s' \"$__wt_name\" | base64 | tr -d '\\n')\"; if base64 < \"$__wt_path\"; then echo \""@
                + "__WEBTERMINAL_DOWNLOAD_END__:"@ + "$__wt_id\"; else echo \""@
                + "__WEBTERMINAL_DOWNLOAD_ERROR__:"@
                + "$__wt_id:base64 failed\"; fi; else echo \""@
                + "__WEBTERMINAL_DOWNLOAD_ERROR__:"@
                + "$__wt_id:file not readable\"; fi; unset __wt_id __wt_path __wt_name\r"@,
{
    law_shell_escape_is_read_back(id);
    law_shell_escape_is_read_back(path);
    assert(reads(shell_escaped(id), id));
    assert(reads(shell_escaped(path), path));
}

} // verus!
