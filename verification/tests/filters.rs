use exportbranch::error::ExportError;
use exportbranch::export_branch_files::{
    check_configuration_file, checked_to_regex_set, file_match, glob_to_regex, join,
    parse_config_list, SourceOverrides,
};
use std::path::{Path, PathBuf};

fn name_of(path: &Path) -> Option<&str> {
    path.file_name().and_then(|n| n.to_str())
}

#[test]
fn checked_to_regex_set_aceita_glob_simples() {
    let set = checked_to_regex_set(&["*.prg".to_string()]).unwrap();
    assert_eq!(set.len(), 1);
    assert!(set.is_match("foo.prg"));
    assert!(set.is_match("bar.prg"));
}

#[test]
fn checked_to_regex_set_escapa_ponto() {
    let set = checked_to_regex_set(&["*.h".to_string()]).unwrap();
    assert!(set.is_match("foo.h"));
}

#[test]
fn checked_to_regex_set_h_nao_casa_html() {
    let set = checked_to_regex_set(&["*.h".to_string()]).unwrap();
    assert!(set.is_match("foo.h"));
    assert!(!set.is_match("foo.html"), "anchors keep *.h from matching foo.html");
}

#[test]
fn checked_to_regex_set_prg_nao_casa_prefixo_programa() {
    let set = checked_to_regex_set(&["*.prg".to_string()]).unwrap();
    assert!(!set.is_match("foo.prg.bak"));
}

#[test]
fn checked_to_regex_set_propaga_erro_em_glob_invalido() {
    let result = checked_to_regex_set(&["[".to_string()]);
    assert!(matches!(result, Err(ExportError::InvalidGlob { .. })));
}

#[test]
fn checked_to_regex_set_erro_nomeia_todos_os_globs() {
    match checked_to_regex_set(&["*.prg".to_string(), "[".to_string()]) {
        Err(ExportError::InvalidGlob { pattern, .. }) => assert_eq!(pattern, "*.prg,["),
        _ => panic!("expected InvalidGlob"),
    }
}

#[test]
fn checked_to_regex_set_guarda_os_padroes() {
    let set = checked_to_regex_set(&["*.so*".to_string(), "a.b".to_string()]).unwrap();
    assert_eq!(set.patterns(), &["^.*\\.so.*$".to_string(), "^a\\.b$".to_string()]);
}

#[test]
fn glob_to_regex_traduz_ponto_e_asterisco() {
    assert_eq!(glob_to_regex("*.prg"), "^.*\\.prg$");
    assert_eq!(glob_to_regex(""), "^$");
    assert_eq!(glob_to_regex("a*b"), "^a.*b$");
}

#[test]
fn join_separa_por_virgula() {
    assert_eq!(join(&[], ","), "");
    assert_eq!(join(&["a".to_string()], ","), "a");
    assert_eq!(join(&["a".to_string(), "b".to_string()], ","), "a,b");
}

#[test]
fn file_match_casa_extensao_prg() {
    let set = checked_to_regex_set(&["*.prg".to_string()]).unwrap();
    let path = PathBuf::from("foo.prg");
    assert!(file_match(name_of(&path), &set));
}

#[test]
fn file_match_nao_casa_extensao_diferente() {
    let set = checked_to_regex_set(&["*.prg".to_string()]).unwrap();
    let path = PathBuf::from("foo.txt");
    assert!(!file_match(name_of(&path), &set));
}

#[test]
fn file_match_aceita_qualquer_um_dos_filtros() {
    let set = checked_to_regex_set(&["*.prg".to_string(), "*.ch".to_string()]).unwrap();
    assert!(file_match(name_of(&PathBuf::from("a.prg")), &set));
    assert!(file_match(name_of(&PathBuf::from("b.ch")), &set));
    assert!(!file_match(name_of(&PathBuf::from("c.txt")), &set));
}

#[test]
fn file_match_aceita_path_sem_nome_retorna_false() {
    let set = checked_to_regex_set(&["*.prg".to_string()]).unwrap();
    assert!(!file_match(name_of(Path::new("")), &set));
}

#[test]
fn file_match_conjunto_vazio_nao_casa() {
    let set = checked_to_regex_set(&[]).unwrap();
    assert!(!file_match(Some("foo.prg"), &set));
}

#[test]
fn parse_config_list_separa_e_limpa() {
    assert_eq!(parse_config_list("*.txt;*.md"), vec!["*.txt", "*.md"]);
    assert_eq!(parse_config_list("*.a;\r\n*.so;\n;"), vec!["*.a", "*.so"]);
    assert!(parse_config_list("").is_empty());
    assert_eq!(parse_config_list("*.p\nrg"), vec!["*.prg"]);
}

fn overrides(
    file_filters: Option<&str>,
    only_copy: Option<&str>,
    do_not_convert: Option<&str>,
) -> SourceOverrides {
    SourceOverrides {
        file_filters: file_filters.map(parse_config_list),
        file_extensions: None,
        only_copy: only_copy.map(parse_config_list),
        do_not_convert: do_not_convert.map(parse_config_list),
    }
}

#[test]
fn check_configuration_file_sem_arquivos_retorna_filtros_originais() {
    let defaults_filters = vec!["*.prg".to_string()];
    let defaults_copy = vec!["*.h".to_string()];

    let (filters, copy) =
        check_configuration_file(&overrides(None, None, None), &defaults_filters, &defaults_copy)
            .unwrap();

    assert!(filters.is_match("foo.prg"));
    assert!(copy.is_match("bar.h"));
}

#[test]
fn check_configuration_file_com_filtrosarquivos_exb_substitui_filtros() {
    let defaults_filters = vec!["*.prg".to_string()];
    let defaults_copy = vec!["*.h".to_string()];
    let (filters, _) = check_configuration_file(
        &overrides(Some("*.txt;*.md"), None, None),
        &defaults_filters,
        &defaults_copy,
    )
    .unwrap();

    assert!(filters.is_match("foo.txt"));
    assert!(filters.is_match("bar.md"));
    assert!(!filters.is_match("foo.prg"));
}

#[test]
fn check_configuration_file_com_extecoesapenascopiar_nao_altera_file_filters() {
    let defaults_filters = vec!["*.prg".to_string()];
    let defaults_copy = vec!["*.h".to_string()];
    let (filters, copy) = check_configuration_file(
        &overrides(None, Some("*.a;*.so"), None),
        &defaults_filters,
        &defaults_copy,
    )
    .unwrap();

    assert!(filters.is_match("foo.prg"));
    assert!(copy.is_match("libx.a"));
    assert!(copy.is_match("libx.so"));
}

#[test]
fn check_configuration_file_junta_apenas_copiar_e_nao_converter() {
    let defaults_filters = vec!["*.prg".to_string()];
    let defaults_copy = vec!["*.h".to_string()];
    let (_, copy) = check_configuration_file(
        &overrides(None, Some("*.a"), Some("*.ch")),
        &defaults_filters,
        &defaults_copy,
    )
    .unwrap();
    assert_eq!(copy.patterns(), &["^.*\\.a$".to_string(), "^.*\\.ch$".to_string()]);
    assert!(!copy.is_match("foo.h"));
}

#[test]
fn check_configuration_file_lista_vazia_usa_padrao() {
    let defaults_filters = vec!["*.prg".to_string()];
    let defaults_copy = vec!["*.h".to_string()];
    let (_, copy) = check_configuration_file(
        &overrides(None, Some(""), Some(";")),
        &defaults_filters,
        &defaults_copy,
    )
    .unwrap();
    assert!(copy.is_match("foo.h"));
}

#[test]
fn check_configuration_file_extecoesarquivos_substitui_filtros() {
    let defaults_filters = vec!["*.prg".to_string()];
    let defaults_copy = vec!["*.h".to_string()];
    let o = SourceOverrides {
        file_filters: None,
        file_extensions: Some(parse_config_list("*.ch")),
        only_copy: None,
        do_not_convert: None,
    };
    let (filters, _) = check_configuration_file(&o, &defaults_filters, &defaults_copy).unwrap();
    assert!(filters.is_match("a.ch"));
    assert!(!filters.is_match("a.prg"));
}

#[test]
fn check_configuration_file_erro_no_apenas_copiar() {
    let defaults_filters = vec!["*.prg".to_string()];
    let defaults_copy = vec!["*.h".to_string()];
    match check_configuration_file(&overrides(None, Some("(;*.a"), None), &defaults_filters, &defaults_copy) {
        Err(ExportError::InvalidGlob { pattern, .. }) => assert_eq!(pattern, "(,*.a"),
        _ => panic!("expected InvalidGlob"),
    }
}
