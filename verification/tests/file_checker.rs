use exportbranch::export::{
    file_outcome_to_export_outcome, outcome_for_status, ExportOutcome, ExportStats, FileOutcome,
};
use exportbranch::file_checker::{FileChecker, FileStatus, FileUpdate};

#[test]
fn build_ignora_metadata_em_formato_legado() {
    let dir = tempfile::tempdir().unwrap();
    let legacy = "/some/path;SystemTime { tv_sec: 100, tv_nsec: 0 }\n\
                  /other/path;123456789\n";
    let checker = FileChecker::build(dir.path().to_str().unwrap().to_string(), legacy);
    assert_eq!(checker.stored("/other/path"), Some(123_456_789u128));
    assert_eq!(checker.stored("/some/path"), None);
}

#[test]
fn save_e_reload_preserva_entrada() {
    let dir = tempfile::tempdir().unwrap();
    let directory = dir.path().to_str().unwrap().to_string();
    let mut checker = FileChecker::new(directory.clone(), None);

    let fake_file = dir.path().join("foo.prg");
    let t: u128 = 42_000_000_000;
    let key = fake_file.to_string_lossy().into_owned();
    checker.add_file(&key, t);
    let saved = checker.save();

    let reloaded = FileChecker::new(directory, Some(&saved));
    assert_eq!(reloaded.stored(&key), Some(42_000_000_000u128));
}

#[test]
fn save_escreve_uma_linha_por_arquivo_na_ordem() {
    let mut checker = FileChecker::new("/d".to_string(), None);
    checker.add_file("/a", 1);
    checker.add_file("/b", 20);
    checker.add_file("/a", 300);
    assert_eq!(checker.save(), "/a;300\n/b;20\n");
}

#[test]
fn build_le_crlf_sinal_e_ultima_linha_sem_quebra() {
    let checker = FileChecker::build("/d".to_string(), "/a;+7\r\n/b;8\n\n/c;9");
    assert_eq!(checker.stored("/a"), Some(7));
    assert_eq!(checker.stored("/b"), Some(8));
    assert_eq!(checker.stored("/c"), Some(9));
    assert_eq!(checker.directory(), "/d");
}

#[test]
fn build_rejeita_valores_invalidos() {
    let text = "/a;\n/b;-1\n/c;340282366920938463463374607431768211456\n/d\n/e;340282366920938463463374607431768211455\n/f;1;2\n";
    let checker = FileChecker::build("/d".to_string(), text);
    assert_eq!(checker.stored("/a"), None);
    assert_eq!(checker.stored("/b"), None);
    assert_eq!(checker.stored("/c"), None);
    assert_eq!(checker.stored("/d"), None);
    assert_eq!(checker.stored("/e"), Some(u128::MAX));
    assert_eq!(checker.stored("/f"), None);
}

#[test]
fn build_entrada_repetida_vale_a_ultima() {
    let checker = FileChecker::build("/d".to_string(), "/a;1\n/a;2\n");
    assert_eq!(checker.stored("/a"), Some(2));
    assert_eq!(checker.save(), "/a;2\n");
}

#[test]
fn check_compara_com_o_registrado() {
    let mut checker = FileChecker::new("/d".to_string(), None);
    checker.add_file("/a", 5);
    assert!(matches!(checker.check("/a", Some(5), 99), FileStatus::UpToDate));
    assert!(matches!(checker.check("/a", Some(6), 99), FileStatus::Modified(6)));
    assert!(matches!(checker.check("/b", Some(5), 99), FileStatus::Modified(5)));
    assert!(matches!(checker.check("/a", None, 99), FileStatus::Modified(99)));
    assert!(matches!(checker.force_update(Some(5), 99), FileStatus::Modified(5)));
    assert!(matches!(checker.force_update(None, 99), FileStatus::Modified(99)));
}

#[test]
fn arquivo_exportado_fica_em_dia_depois_de_recarregar() {
    let mut checker = FileChecker::new("/d".to_string(), None);
    checker.apply(&FileUpdate { path: "/src/x.prg".to_string(), modified: 77, only_copy: false });
    let reloaded = FileChecker::new("/d".to_string(), Some(&checker.save()));
    assert!(matches!(reloaded.check("/src/x.prg", Some(77), 0), FileStatus::UpToDate));
}

#[test]
fn contagens_das_saidas_de_arquivos() {
    let converted = file_outcome_to_export_outcome(FileOutcome::Updated(FileUpdate {
        path: "a".into(),
        modified: 1,
        only_copy: false,
    }));
    let copied = file_outcome_to_export_outcome(FileOutcome::Updated(FileUpdate {
        path: "b".into(),
        modified: 2,
        only_copy: true,
    }));
    let skipped = file_outcome_to_export_outcome(FileOutcome::Skipped);
    let filtered = file_outcome_to_export_outcome(FileOutcome::Filtered);
    let all = ExportOutcome::empty()
        .merge(converted)
        .merge(copied)
        .merge(skipped)
        .merge(filtered);
    assert_eq!(all.updates.len(), 2);
    assert_eq!(all.updates[0].path, "a");
    assert_eq!(all.updates[1].path, "b");
    assert_eq!((all.stats.converted, all.stats.copied, all.stats.skipped), (1, 1, 1));
    assert_eq!(all.stats.total(), 3);
}

#[test]
fn merge_de_estatisticas() {
    let a = ExportStats { converted: 1, copied: 2, skipped: 3 };
    let b = ExportStats { converted: 10, copied: 20, skipped: 30 };
    let m = a.merge(b);
    assert_eq!((m.converted, m.copied, m.skipped), (11, 22, 33));
    let z = ExportStats::default().merge(a);
    assert_eq!((z.converted, z.copied, z.skipped), (1, 2, 3));
    assert_eq!(m.total(), 66);
}

#[test]
fn saida_segundo_o_status() {
    assert!(matches!(
        outcome_for_status(FileStatus::UpToDate, "a".into(), false),
        FileOutcome::Skipped
    ));
    match outcome_for_status(FileStatus::Modified(9), "a".into(), true) {
        FileOutcome::Updated(u) => assert!(u.path == "a" && u.modified == 9 && u.only_copy),
        _ => panic!("expected Updated"),
    }
}

#[test]
fn contagens_somam_os_arquivos_que_passaram_pelo_filtro() {
    let outcomes = vec![
        FileOutcome::Updated(FileUpdate { path: "/a.prg".to_string(), modified: 1, only_copy: false }),
        FileOutcome::Filtered,
        FileOutcome::Skipped,
        FileOutcome::Updated(FileUpdate { path: "/b.a".to_string(), modified: 2, only_copy: true }),
    ];
    let mut total = ExportOutcome::empty();
    for outcome in outcomes {
        total = total.merge(file_outcome_to_export_outcome(outcome));
    }
    assert_eq!(total.stats, ExportStats { converted: 1, copied: 1, skipped: 1 });
    assert_eq!(total.stats.total(), 3);
    assert_eq!(total.updates.len(), 2);
    assert_eq!(total.updates.iter().filter(|u| u.only_copy).count(), 1);
}
