use exportbranch::debug_log::{default_log_path, log_path_for_secs};
use exportbranch::error::ExportError;
use exportbranch::export::ExportStats;
use exportbranch::layout::{
    destination_path, format_lower, inherit_drive, join_path, source_path_display, PathStyle,
};
use exportbranch::report::{format_done, format_file_line};
use std::path::PathBuf;

#[test]
fn destination_path_em_linux_usa_destination_como_e() {
    let out = destination_path("/mnt/c/src", "/mnt/e/Trunk", PathStyle::Unix).unwrap();
    assert_eq!(PathBuf::from(out), PathBuf::from("/mnt/e/Trunk"));
}

#[test]
fn destination_path_em_windows_espelha_source_sob_drive_do_destination() {
    let out = destination_path(r"L:\trunk\frente", r"R:\", PathStyle::Windows).unwrap();
    assert_eq!(out, r"R:\trunk\frente");
}

#[test]
fn destination_path_em_windows_preserva_path_apos_drive_no_destination() {
    let out = destination_path(r"L:\trunk\frente", r"R:\Trunk2", PathStyle::Windows).unwrap();
    assert_eq!(out, r"R:\Trunk2\trunk\frente");
}

#[test]
fn destination_path_caso_do_bug_reportado() {
    let out = destination_path(r"T:\new", r"L:\trunk2\", PathStyle::Windows).unwrap();
    assert_eq!(out, r"L:\trunk2\new");
}

#[test]
fn destination_path_em_windows_exige_drive_prefix_no_source() {
    let err = destination_path(r"trunk\frente", r"R:\", PathStyle::Windows).unwrap_err();
    assert!(matches!(err, ExportError::MissingDrivePrefix(_)));
}

#[test]
fn destination_path_em_windows_casos_de_borda() {
    assert_eq!(
        destination_path(r"C:\ProdutosSG\Branches\Trunk", r"E:\", PathStyle::Windows).unwrap(),
        r"E:\ProdutosSG\Branches\Trunk"
    );
    assert_eq!(destination_path(r"C:/a//b/./c\", "E:", PathStyle::Windows).unwrap(), r"E:a\b\c");
    assert_eq!(destination_path(r"C:\", r"E:\x", PathStyle::Windows).unwrap(), r"E:\x\");
    assert!(destination_path(":x", r"E:\", PathStyle::Windows).is_err());
}

#[test]
fn source_path_display_tira_prefixo_verbatim_no_windows() {
    assert_eq!(source_path_display(r"\\?\C:\a", PathStyle::Windows), r"C:\a");
    assert_eq!(source_path_display(r"\\?\C:\a", PathStyle::Unix), r"\\?\C:\a");
    assert_eq!(source_path_display(r"C:\a", PathStyle::Windows), r"C:\a");
}

#[test]
fn format_file_line_convert_usa_verbo_convert() {
    let line = format_file_line(false, "/src/foo.prg", "/dst/foo.prg");
    assert_eq!(line, "convert /src/foo.prg → /dst/foo.prg");
}

#[test]
fn format_file_line_copy_usa_verbo_copy_alinhado_em_sete() {
    let line = format_file_line(true, "/src/lib.a", "/dst/lib.a");
    assert_eq!(line, "copy    /src/lib.a → /dst/lib.a");
}

#[test]
fn format_done_imprime_segundos_e_resumo_de_stats() {
    let stats = ExportStats {
        converted: 897,
        copied: 337,
        skipped: 156,
    };
    assert_eq!(
        format_done(4, stats),
        "Done in 4s · 1390 files: 897 converted, 337 copied, 156 skipped"
    );
}

#[test]
fn format_done_zera_quando_sem_arquivos() {
    let stats = ExportStats::default();
    assert_eq!(
        format_done(0, stats),
        "Done in 0s · 0 files: 0 converted, 0 copied, 0 skipped"
    );
}

#[test]
fn default_log_path_tem_prefixo_esperado() {
    let path = PathBuf::from(default_log_path());
    let name = path.file_name().unwrap().to_string_lossy().to_string();
    assert!(name.starts_with("exportbranch-"));
    assert_eq!(
        path.extension().and_then(|e| e.to_str()),
        Some("log"),
        "expected .log extension"
    );
}

#[test]
fn log_path_for_secs_exato() {
    assert_eq!(log_path_for_secs(1_714_000_000), "exportbranch-1714000000.log");
    assert_eq!(log_path_for_secs(0), "exportbranch-0.log");
}

#[test]
fn format_lower_sem_lower_mantem_o_caminho() {
    assert_eq!(format_lower("/dst/Foo/Bar.PRG", "/dst", false, PathStyle::Unix), "/dst/Foo/Bar.PRG");
}

#[test]
fn format_lower_baixa_so_o_que_fica_abaixo_do_root() {
    assert_eq!(format_lower("/DST/Foo/Bar.PRG", "/DST", true, PathStyle::Unix), "/DST/foo/bar.prg");
    assert_eq!(
        format_lower(r"R:\Trunk\Frente\Foo.PRG", r"R:\Trunk", true, PathStyle::Windows),
        r"R:\Trunk\frente\foo.prg"
    );
    assert_eq!(format_lower(r"R:\Frente", "R:\\", true, PathStyle::Windows), r"R:\frente");
    assert_eq!(format_lower(r"R:Frente", "R:", true, PathStyle::Windows), "R:frente");
}

#[test]
fn format_lower_do_proprio_root_acrescenta_separador() {
    assert_eq!(format_lower("/Dst", "/Dst", true, PathStyle::Unix), "/Dst/");
}

#[test]
fn format_lower_fora_do_root_baixa_tudo() {
    assert_eq!(format_lower("/Other/X", "/Dst", true, PathStyle::Unix), "/other/x");
    assert_eq!(format_lower("/DstX/Y", "/Dst", true, PathStyle::Unix), "/dstx/y");
}

#[test]
fn format_lower_usa_minusculas_unicode() {
    assert_eq!(format_lower("/d/AÇÃO.PRG", "/d", true, PathStyle::Unix), "/d/ação.prg");
}

#[test]
fn inherit_drive_completa_itens_sem_drive_com_o_do_primeiro() {
    let sources = vec![r"T:\new".to_string(), r"\src".to_string(), r"\include".to_string()];
    let out = inherit_drive(&sources, PathStyle::Windows).unwrap();
    assert_eq!(out, vec![r"T:\new", r"T:\src", r"T:\include"]);
}

#[test]
fn inherit_drive_mantem_itens_com_drive_proprio() {
    let sources = vec![r"T:\new".to_string(), r"L:\trunk".to_string()];
    let out = inherit_drive(&sources, PathStyle::Windows).unwrap();
    assert_eq!(out, vec![r"T:\new", r"L:\trunk"]);
}

#[test]
fn inherit_drive_sem_drive_no_primeiro_falha() {
    let sources = vec![r"\src".to_string(), r"T:\new".to_string()];
    let err = inherit_drive(&sources, PathStyle::Windows).unwrap_err();
    assert!(matches!(err, ExportError::MissingDrivePrefix(ref p) if p == r"\src"));
}

#[test]
fn inherit_drive_em_linux_nao_muda_nada() {
    let sources = vec!["/a".to_string(), "b".to_string()];
    assert_eq!(inherit_drive(&sources, PathStyle::Unix).unwrap(), sources);
}

#[test]
fn join_path_poe_separador_so_quando_falta() {
    assert_eq!(join_path("/a", "b", PathStyle::Unix), "/a/b");
    assert_eq!(join_path("/a/", "b", PathStyle::Unix), "/a/b");
    assert_eq!(join_path("", "b", PathStyle::Unix), "b");
    assert_eq!(join_path(r"R:\Trunk2", "x", PathStyle::Windows), r"R:\Trunk2\x");
    assert_eq!(join_path(r"R:\", "x", PathStyle::Windows), r"R:\x");
    assert_eq!(join_path("R:", "x", PathStyle::Windows), "R:x");
}

#[test]
fn destination_path_aceita_unc_e_verbatim() {
    let unc = destination_path(r"\\server\share\dir\sub", r"R:\", PathStyle::Windows).unwrap();
    assert_eq!(unc, r"R:\dir\sub");
    let verbatim = destination_path(r"\\?\C:\x\y", r"R:\Trunk2", PathStyle::Windows).unwrap();
    assert_eq!(verbatim, r"R:\Trunk2\x\y");
    let verbatim_unc =
        destination_path(r"\\?\UNC\server\share\a", r"R:\", PathStyle::Windows).unwrap();
    assert_eq!(verbatim_unc, r"R:\a");
    let device = destination_path(r"\\.\COM1\a", r"R:\", PathStyle::Windows).unwrap();
    assert_eq!(device, r"R:\a");
}

#[test]
fn destination_path_unc_incompleto_nao_tem_prefixo() {
    let err = destination_path(r"\\server", r"R:\", PathStyle::Windows).unwrap_err();
    assert!(matches!(err, ExportError::MissingDrivePrefix(_)));
}

#[test]
fn inherit_drive_herda_share_unc() {
    let sources = vec![r"\\srv\share\new".to_string(), r"\src".to_string()];
    let out = inherit_drive(&sources, PathStyle::Windows).unwrap();
    assert_eq!(out, vec![r"\\srv\share\new", r"\\srv\share\src"]);
}

#[test]
fn join_path_caminho_absoluto_substitui() {
    assert_eq!(join_path("/a", "/b", PathStyle::Unix), "/b");
    assert_eq!(join_path(r"R:\a", r"C:\b", PathStyle::Windows), r"C:\b");
    assert_eq!(join_path(r"R:\a", r"\b", PathStyle::Windows), r"R:\b");
}

#[test]
fn format_lower_fora_do_root_relativo_junta_no_root() {
    assert_eq!(format_lower("Other/X", "/Dst", true, PathStyle::Unix), "/Dst/other/x");
}
