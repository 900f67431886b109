use exportbranch::configuration::{
    default_filters, default_only_copy, disregarded_relative_paths, split_list, CommandLine,
    Configuration,
};
use exportbranch::error::ExportError;

fn command_line(source: &[&str], destination: &[&str]) -> CommandLine {
    CommandLine {
        source: source.iter().map(|s| s.to_string()).collect(),
        destination: destination.iter().map(|s| s.to_string()).collect(),
        only_copy_files: Vec::new(),
        file_filters: Vec::new(),
        show: false,
        exists: false,
        md5: false,
        reload: false,
        lower: false,
        quiet: false,
    }
}

#[test]
fn build_sem_source_retorna_erro() {
    let result = Configuration::build(&command_line(&[], &["/tmp"]));
    assert!(matches!(result, Err(ExportError::InvalidArgs(_))));
}

#[test]
fn build_sem_destination_retorna_erro() {
    let dir = tempfile::tempdir().unwrap();
    let p = dir.path().to_str().unwrap();
    let result = Configuration::build(&command_line(&[p], &[]));
    assert!(matches!(result, Err(ExportError::InvalidArgs(_))));
}

#[test]
fn build_aceita_paths_separados_por_ponto_virgula() {
    let dir = tempfile::tempdir().unwrap();
    let p = dir.path().to_str().unwrap();
    let arg = format!("{p};{p}");
    let cfg = Configuration::build(&command_line(&[&arg], &["/tmp;/tmp2"])).unwrap();
    assert_eq!(cfg.source().len(), 2);
    assert_eq!(cfg.destination().len(), 2);
}

#[test]
fn build_exists_ativa_flag() {
    let dir = tempfile::tempdir().unwrap();
    let p = dir.path().to_str().unwrap();
    let mut cli = command_line(&[p], &["/tmp"]);
    cli.exists = true;
    let cfg = Configuration::build(&cli).unwrap();
    assert!(cfg.exists_flag());
}

#[test]
fn build_md5_ainda_funciona_como_alias_depreciado() {
    let dir = tempfile::tempdir().unwrap();
    let p = dir.path().to_str().unwrap();
    let mut cli = command_line(&[p], &["/tmp"]);
    cli.md5 = true;
    let cfg = Configuration::build(&cli).unwrap();
    assert!(cfg.exists_flag());
}

#[test]
fn build_filters_default_quando_omitido() {
    let dir = tempfile::tempdir().unwrap();
    let p = dir.path().to_str().unwrap();
    let cfg = Configuration::build(&command_line(&[p], &["/tmp"])).unwrap();
    assert!(cfg.file_filters().contains(&"*.prg".to_string()));
    assert!(cfg.only_copy_files().contains(&"*.h".to_string()));
}

#[test]
fn build_filters_customizados_substituem_default() {
    let dir = tempfile::tempdir().unwrap();
    let p = dir.path().to_str().unwrap();
    let mut cli = command_line(&[p], &["/tmp"]);
    cli.file_filters = vec!["*.txt;*.md".to_string()];
    let cfg = Configuration::build(&cli).unwrap();
    assert_eq!(
        cfg.file_filters(),
        &vec!["*.txt".to_string(), "*.md".to_string()]
    );
}

#[test]
fn build_so_ponto_virgulas_vira_erro() {
    let result = Configuration::build(&command_line(&[";;"], &["/tmp"]));
    match result {
        Err(ExportError::InvalidArgs(msg)) => {
            assert_eq!(msg, "source and destination cannot be empty")
        }
        _ => panic!("expected InvalidArgs"),
    }
}

#[test]
fn build_flags_sao_copiadas() {
    let mut cli = command_line(&["/a"], &["/b"]);
    cli.reload = true;
    cli.lower = true;
    cli.quiet = true;
    cli.show = true;
    let cfg = Configuration::build(&cli).unwrap();
    assert!(cfg.reload() && cfg.lower() && cfg.quiet() && cfg.show());
    assert!(!cfg.exists_flag());
    assert!(cfg.disregarded_directories().is_empty());
}

#[test]
fn split_list_junta_ocorrencias_e_descarta_vazios() {
    let values = vec!["a;;b;".to_string(), "".to_string(), ";c".to_string()];
    assert_eq!(split_list(&values), vec!["a", "b", "c"]);
}

#[test]
fn defaults_da_configuracao() {
    assert_eq!(default_only_copy(), vec!["*.a", "*.so", "*.h", "*.0", "*.18"]);
    assert_eq!(default_filters().len(), 19);
    assert_eq!(default_filters()[9], "*.so*");
    assert_eq!(
        disregarded_relative_paths(),
        vec![
            "bin",
            "lib",
            "new/fivewin",
            "programas_externos/conversoes",
            "programas_externos/hbfunctions"
        ]
    );
}

#[test]
fn diretorios_desconsiderados_sem_repeticao() {
    let mut cfg = Configuration::build(&command_line(&["/a"], &["/b"])).unwrap();
    cfg.add_disregarded_directory("/a/bin".to_string());
    cfg.add_disregarded_directory("/a/lib".to_string());
    cfg.add_disregarded_directory("/a/bin".to_string());
    assert_eq!(cfg.disregarded_directories(), &vec!["/a/bin".to_string(), "/a/lib".to_string()]);
    assert!(cfg.is_disregarded(&"/a/lib".to_string()));
    assert!(!cfg.is_disregarded(&"/a/app".to_string()));
}

#[test]
fn banner_mostra_source_destination_e_exporting() {
    let cfg = Configuration::build(&command_line(&[r"L:\trunk"], &[r"R:\"])).unwrap();
    assert_eq!(
        cfg.banner(),
        vec![
            r"source       = L:\trunk".to_string(),
            r"destination  = R:\".to_string(),
            "Exporting...".to_string(),
        ]
    );
}

#[test]
fn banner_junta_varios_roots_com_ponto_virgula() {
    let cfg = Configuration::build(&command_line(&["/a;/b"], &["/c"])).unwrap();
    assert_eq!(cfg.banner()[0], "source       = /a;/b");
}

#[test]
fn banner_quiet_nao_imprime_nada() {
    let mut cli = command_line(&["/a"], &["/b"]);
    cli.quiet = true;
    let cfg = Configuration::build(&cli).unwrap();
    assert!(cfg.banner().is_empty());
}

#[test]
fn banner_show_com_defaults_nao_acrescenta_nada() {
    let mut cli = command_line(&["/a"], &["/b"]);
    cli.show = true;
    let cfg = Configuration::build(&cli).unwrap();
    assert_eq!(cfg.banner().len(), 3);
}

#[test]
fn banner_show_lista_so_o_que_foi_personalizado() {
    let mut cli = command_line(&["/a"], &["/b"]);
    cli.show = true;
    cli.file_filters = vec!["*.prg;*.ch".to_string()];
    cli.lower = true;
    cli.md5 = true;
    let cfg = Configuration::build(&cli).unwrap();
    assert_eq!(
        cfg.banner(),
        vec![
            "source       = /a".to_string(),
            "destination  = /b".to_string(),
            "file_filters = *.prg;*.ch".to_string(),
            "exists       = true".to_string(),
            "lower        = true".to_string(),
            "Exporting...".to_string(),
        ]
    );
}

#[test]
fn banner_sem_show_ignora_personalizacoes() {
    let mut cli = command_line(&["/a"], &["/b"]);
    cli.only_copy_files = vec!["*.x".to_string()];
    cli.reload = true;
    let cfg = Configuration::build(&cli).unwrap();
    assert_eq!(cfg.banner().len(), 3);
}

#[test]
fn build_mantem_itens_vazios_dos_globs() {
    let mut cli = command_line(&["/a"], &["/b"]);
    cli.file_filters = vec!["*.prg;".to_string()];
    cli.only_copy_files = vec![String::new()];
    let cfg = Configuration::build(&cli).unwrap();
    assert_eq!(cfg.file_filters(), &vec!["*.prg".to_string(), String::new()]);
    assert_eq!(cfg.only_copy_files(), &vec![String::new()]);
}
