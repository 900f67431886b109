use exportbranch::error::{ExportError, WithPath};
use std::io;

#[test]
fn display_io_inclui_path() {
    let err = ExportError::Io {
        path: "/tmp/missing".to_string(),
        source: io::Error::new(io::ErrorKind::NotFound, "file not found"),
    };
    let msg = err.message();
    assert!(msg.contains("/tmp/missing"));
    assert!(msg.contains("file not found"));
    assert_eq!(msg, "I/O error on /tmp/missing: file not found");
}

#[test]
fn display_invalid_args_retorna_mensagem() {
    let err = ExportError::InvalidArgs("use -s and -d".into());
    assert_eq!(err.message(), "use -s and -d");
}

#[test]
fn display_invalid_glob_inclui_pattern() {
    let err = ExportError::InvalidGlob {
        pattern: "*.[".into(),
        source: regex::Error::Syntax("unterminated".into()),
    };
    let msg = err.message();
    assert!(msg.contains("*.["));
    assert_eq!(msg, "invalid glob pattern `*.[`: unterminated");
}

#[test]
fn display_demais_variantes() {
    assert_eq!(
        ExportError::MissingFileName("/x/..".into()).message(),
        "path has no file name component: /x/.."
    );
    assert_eq!(
        ExportError::MissingDrivePrefix(r"trunk\frente".into()).message(),
        r"source path has no drive prefix (e.g. `C:\`): trunk\frente"
    );
    let err = ExportError::Metadata {
        path: "x".into(),
        source: io::Error::other("y"),
    };
    assert_eq!(err.message(), "failed to read metadata for x: y");
}

#[test]
fn exit_code_invalid_args_e_2() {
    let err = ExportError::InvalidArgs("x".into());
    assert_eq!(err.exit_code(), 2);
}

#[test]
fn exit_code_metadata_e_3() {
    let err = ExportError::Metadata {
        path: "x".into(),
        source: io::Error::other("y"),
    };
    assert_eq!(err.exit_code(), 3);
}

#[test]
fn exit_code_demais_e_1() {
    assert_eq!(ExportError::MissingFileName("x".into()).exit_code(), 1);
    assert_eq!(ExportError::MissingDrivePrefix("x".into()).exit_code(), 1);
    let err = ExportError::Io {
        path: "x".into(),
        source: io::Error::other("y"),
    };
    assert_eq!(err.exit_code(), 1);
}

#[test]
fn with_path_anexa_caminho_no_io_error() {
    let result: std::result::Result<(), io::Error> =
        Err(io::Error::new(io::ErrorKind::NotFound, "nope"));
    let err = result.with_path("/some/path").unwrap_err();
    match err {
        ExportError::Io { path, .. } => assert_eq!(path, "/some/path"),
        other => panic!("expected Io, got {}", other.message()),
    }
}

#[test]
fn with_path_mantem_sucesso() {
    let result: std::result::Result<u8, io::Error> = Ok(7);
    assert!(matches!(result.with_path("/p"), Ok(7)));
}
