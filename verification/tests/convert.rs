use exportbranch::convert_file::{convert_buffer, convert_stream, StreamConverter};

#[test]
fn convert_buffer_crlf_vira_lf() {
    assert_eq!(convert_buffer(b"a\r\nb"), b"a\nb");
}

#[test]
fn convert_buffer_texto_chr_251_vira_chr_42() {
    assert_eq!(convert_buffer(b"chr(251)"), b"chr(42)");
}

#[test]
fn convert_buffer_texto_chr_30_vira_chr_94() {
    assert_eq!(convert_buffer(b"chr(30)"), b"chr(94)");
}

#[test]
fn convert_buffer_byte_251_vira_42() {
    assert_eq!(convert_buffer(&[0xFB]), b"*");
}

#[test]
fn convert_buffer_byte_26_vira_espaco() {
    assert_eq!(convert_buffer(&[26]), b" ");
}

#[test]
fn convert_buffer_byte_160_vira_a() {
    assert_eq!(convert_buffer(&[0xA0]), b"a");
}

#[test]
fn convert_buffer_bytes_acentuados_cp850() {
    let input = [0x80, 0xA0, 0x82, 0xA2, 0xA1, 0xA3, 0x87];
    assert_eq!(convert_buffer(&input), b"Caeoiuc");
}

#[test]
fn convert_buffer_byte_ascii_nao_altera() {
    let text = b"Hello, World! 0123456789";
    assert_eq!(convert_buffer(text), text);
}

#[test]
fn convert_buffer_vazio_retorna_vazio() {
    assert!(convert_buffer(b"").is_empty());
}

#[test]
fn convert_buffer_mistura_multibyte_e_byte() {
    let input = [b'a', b'\r', b'\n', 0xFB, b'\r', b'\n'];
    assert_eq!(convert_buffer(&input), b"a\n*\n");
}

/// Cuts `input` into reads of at most `chunk_size` bytes, as a reader with
/// a buffer of that size would return them, and converts them as a stream.
fn run_stream(input: &[u8], chunk_size: usize) -> Vec<u8> {
    let reads: Vec<Vec<u8>> = input.chunks(chunk_size).map(|c| c.to_vec()).collect();
    convert_stream(&reads)
}

#[test]
fn convert_stream_equivale_a_convert_buffer_em_chunks() {
    let mut input: Vec<u8> = Vec::new();
    for _ in 0..2_000 {
        input.extend_from_slice(b"chr(251)\r\n");
    }
    for chunk in [1, 4, 7, 8, 9, 64, 1024] {
        assert_eq!(run_stream(&input, chunk), convert_buffer(&input));
    }
}

#[test]
fn convert_stream_padroes_em_offsets_chunk_boundary() {
    let chunk_size = 16;
    for k in 1..=7usize {
        let mut input = vec![b'.'; chunk_size - k];
        input.extend_from_slice(b"chr(251)tail");
        let expected = convert_buffer(&input);
        let actual = run_stream(&input, chunk_size);
        assert_eq!(actual, expected, "falhou para k={k}");
    }
}

#[test]
fn convert_stream_crlf_em_boundary() {
    let mut input = vec![b'.'; 15];
    input.push(b'\r');
    input.push(b'\n');
    input.extend_from_slice(b"end");
    let expected = convert_buffer(&input);
    let actual = run_stream(&input, 16);
    assert_eq!(actual, expected);
}

/// The earlier multi-pass algorithm, kept as an oracle: each substitution
/// applied in turn over the whole buffer.
fn convert_buffer_legacy(input: &[u8]) -> Vec<u8> {
    const LEGACY: [(&[u8], &[u8]); 38] = [
        (&[13, 10], &[10]),
        (&[26], &[32]),
        (b"chr(251)", b"chr(42)"),
        (&[251], &[42]),
        (b"chr(24)", b"chr(94)"),
        (b"chr(30)", b"chr(94)"),
        (b"chr(31)", b"chr(86)"),
        (&[30], &[94]),
        (&[31], &[86]),
        (&[193], &[196]),
        (&[194], &[196]),
        (&[180], &[179]),
        (&[195], &[179]),
        (&[183], b"A"),
        (&[181], b"A"),
        (&[142], b"A"),
        (&[199], b"A"),
        (&[144], b"E"),
        (&[153], b"O"),
        (&[128], b"C"),
        (&[132], b"a"),
        (&[133], b"a"),
        (&[131], b"a"),
        (&[160], b"a"),
        (&[225], b"a"),
        (&[198], b"a"),
        (&[130], b"e"),
        (&[136], b"e"),
        (&[137], b"e"),
        (&[161], b"i"),
        (&[147], b"o"),
        (&[162], b"o"),
        (&[148], b"o"),
        (&[163], b"u"),
        (&[129], b"u"),
        (&[135], b"c"),
        (&[166], b"."),
        (&[167], b"."),
    ];

    let mut buf = input.to_vec();
    for &(from, to) in &LEGACY {
        if from.is_empty() {
            continue;
        }
        let mut i = 0;
        while i < buf.len() {
            if buf[i..].starts_with(from) {
                buf.splice(i..i + from.len(), to.iter().copied());
                if to.is_empty() {
                    continue;
                }
                i += to.len();
            } else {
                i += 1;
            }
        }
    }
    buf
}

#[test]
fn convert_buffer_equivale_ao_algoritmo_antigo() {
    let fixture: Vec<u8> = (0u8..=255u8)
        .chain(b"\r\nchr(251) chr(30) chr(24) chr(31) body\r\n".iter().copied())
        .collect();
    assert_eq!(convert_buffer(&fixture), convert_buffer_legacy(&fixture));
}

#[test]
fn convert_buffer_chr_24_e_chr_31() {
    assert_eq!(convert_buffer(b"chr(24)+chr(31)"), b"chr(94)+chr(86)");
}

#[test]
fn convert_buffer_cr_sozinho_nao_vira_lf() {
    assert_eq!(convert_buffer(b"a\rb\r"), b"a\rb\r");
}

#[test]
fn convert_buffer_padrao_incompleto_no_fim_vira_bytes() {
    assert_eq!(convert_buffer(b"chr(25"), b"chr(25");
    assert_eq!(convert_buffer(&[b'c', b'h', 0xA0]), b"cha");
}

#[test]
fn convert_buffer_tabela_de_bytes_completa() {
    let expected: [(u8, u8); 33] = [
        (26, 32), (30, 94), (31, 86), (128, b'C'), (142, b'A'), (144, b'E'), (153, b'O'),
        (181, b'A'), (183, b'A'), (199, b'A'), (129, b'u'), (130, b'e'), (131, b'a'), (132, b'a'),
        (133, b'a'), (135, b'c'), (136, b'e'), (137, b'e'), (147, b'o'), (148, b'o'), (160, b'a'),
        (161, b'i'), (162, b'o'), (163, b'u'), (198, b'a'), (225, b'a'), (166, b'.'), (167, b'.'),
        (180, 179), (193, 196), (194, 196), (195, 179), (251, 42),
    ];
    for b in 0u8..=255 {
        let want = expected.iter().find(|(from, _)| *from == b).map_or(b, |(_, to)| *to);
        if b == 13 || b == b'c' {
            continue;
        }
        assert_eq!(convert_buffer(&[b]), vec![want], "byte {b}");
    }
}

#[test]
fn stream_entregue_nunca_e_desfeito() {
    // What `feed` hands back is always the start of the final conversion.
    let input = b"xx chr(251)\r\n chr(30) \xA0\r";
    let whole = convert_buffer(input);
    for chunk in 1..=input.len() {
        let mut converter = StreamConverter::new();
        let mut out: Vec<u8> = Vec::new();
        for piece in input.chunks(chunk) {
            out.extend(converter.feed(piece));
            assert!(whole.starts_with(&out));
        }
        out.extend(converter.finish());
        assert_eq!(out, whole);
    }
}

#[test]
fn stream_segura_no_maximo_sete_bytes() {
    let mut converter = StreamConverter::new();
    assert!(converter.feed(b"chr(25").is_empty());
    assert_eq!(converter.feed(b"1)abc"), b"chr(42)".to_vec());
    assert_eq!(converter.finish(), b"abc".to_vec());
}

#[test]
fn stream_sem_leituras_retorna_vazio() {
    let reads: Vec<Vec<u8>> = Vec::new();
    assert!(convert_stream(&reads).is_empty());
}

#[test]
fn convert_buffer_byte_que_vira_c_nao_forma_padrao() {
    // 135 becomes `c` only after the patterns were looked for.
    assert_eq!(convert_buffer(b"\x87hr(30)"), b"chr(30)".to_vec());
    assert_eq!(convert_buffer(b"\r\r\n"), b"\r\n".to_vec());
}
