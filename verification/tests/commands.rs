use webterminal::commands::{
    file_download_command, file_upload_chunk_command, file_upload_finish_commands,
    file_upload_start_command, upload_tmp_path, validate_transfer_id,
};
use webterminal::errors::SessionError;

#[test]
fn transfer_ids_are_checked() {
    for id in ["a", "A-z_09", "-"] {
        assert!(validate_transfer_id(id).is_ok(), "{id}");
    }
    for id in ["", "a b", "a:b", "\u{e9}", "a\n", "a.b"] {
        assert_eq!(validate_transfer_id(id), Err(SessionError::InvalidTransferId), "{id}");
    }
}

#[test]
fn the_download_command_prints_the_markers() {
    assert_eq!(
        file_download_command("d-1", "/tmp/a b"),
        "__wt_id=d-1; __wt_path='/tmp/a b'; \
         if [ -f \"$__wt_path\" ] && [ -r \"$__wt_path\" ]; then \
         __wt_name=$(basename -- \"$__wt_path\" 2>/dev/null || basename \"$__wt_path\"); \
         echo \"__WEBTERMINAL_DOWNLOAD_BEGIN__:$__wt_id:$(printf '%s' \"$__wt_name\" | base64 | tr -d '\\n')\"; \
         if base64 < \"$__wt_path\"; then \
         echo \"__WEBTERMINAL_DOWNLOAD_END__:$__wt_id\"; \
         else \
         echo \"__WEBTERMINAL_DOWNLOAD_ERROR__:$__wt_id:base64 failed\"; \
         fi; \
         else \
         echo \"__WEBTERMINAL_DOWNLOAD_ERROR__:$__wt_id:file not readable\"; \
         fi; \
         unset __wt_id __wt_path __wt_name\r"
    );
}

#[test]
fn uploads_are_put_together_beside_their_place() {
    let tmp = upload_tmp_path("/tmp/f", "u1");
    assert_eq!(tmp, "/tmp/f.webterminal.u1.tmp");
    assert_eq!(
        file_upload_start_command("/tmp/f", &tmp),
        "__wt_path=/tmp/f; : > /tmp/f.webterminal.u1.tmp.b64\r"
    );
    assert_eq!(
        file_upload_start_command("a b", "a b.tmp"),
        "__wt_path='a b'; : > 'a b.tmp.b64'\r"
    );
}

#[test]
fn pieces_of_an_upload_are_compacted() {
    assert_eq!(
        file_upload_chunk_command("QUJ D\r\nRA==\t", "/t"),
        Ok("printf '%s' QUJDRA== >> /t.b64\r".to_string())
    );
    assert_eq!(
        file_upload_chunk_command("a+/=", "/t"),
        Ok("printf '%s' 'a+/=' >> /t.b64\r".to_string())
    );
    assert_eq!(file_upload_chunk_command(" \n", "/t"), Ok(String::new()));
    assert_eq!(file_upload_chunk_command("", "/t"), Ok(String::new()));
}

#[test]
fn pieces_that_are_not_base64_are_refused() {
    for data in ["a$b", "a-b", "'; rm -rf ~'", "\u{e9}", "a\u{b}b"] {
        assert_eq!(
            file_upload_chunk_command(data, "/t"),
            Err(SessionError::InvalidUploadChunk),
            "{data}"
        );
    }
}

#[test]
fn an_upload_is_finished_in_three_commands() {
    assert_eq!(
        file_upload_finish_commands("f", "t t"),
        vec![
            "rm -f 't t.ok'\r",
            "(base64 -d < 't t.b64' > 't t' 2>/dev/null || base64 -D < 't t.b64' > 't t' 2>/dev/null) && touch 't t.ok'\r",
            "if [ -f 't t.ok' ]; then mv 't t' f && rm -f 't t.b64' 't t.ok' && printf '\\n[webterminal upload complete: %s]\\n' f; else rm -f 't t' 't t.b64' 't t.ok'; printf '\\n[webterminal upload failed: base64 decode failed]\\n'; fi\r",
        ]
    );
}

#[test]
fn errors_have_messages() {
    let messages = [
        (SessionError::MissingSshTarget, "ssh target is required"),
        (SessionError::MissingPersistedTarget, "persisted ssh session is missing ssh target"),
        (
            SessionError::MissingPersistedControlTarget,
            "persisted ssh control session is missing ssh target",
        ),
        (SessionError::InvalidTransferId, "invalid file transfer id"),
        (SessionError::InvalidUploadChunk, "file upload chunk is not valid base64 text"),
        (SessionError::InputClosed, "terminal input channel is closed"),
        (SessionError::NotFound, "session not found"),
        (SessionError::NotReconnectable, "session is not reconnectable"),
    ];
    for (error, message) in messages {
        assert_eq!(error.message(), message);
    }
}
