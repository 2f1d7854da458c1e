use escala::tipos::{
    Alocacao, AlocacaoHorario, ConfiguracaoEscala, Divida, EscalaDiaria, EstadoEscala, Genero,
    Periodo, PostoEscalado, Posto, Punicao, TipoServico, TipoTroca, StatusTroca, Troca,
    DetalheServico, User,
};
use escala::contagem::{Contagem, RegistoContagem};
use escala::dividas::{DividasAtivas, DividaPaga, RegistoDividas};
use escala::escala::{gerar_nova_escala, DiaRotina, DiaGerado};
use escala::trocas::{pedir_troca, responder_troca};
use escala::substituicao::{aprovar_troca, troca_obrigatoria, ErroTroca};
use escala::texto::{sufixo_numerico, u32_decimal};
use escala::apoio::{
    calcular_stats, format_datetime_info, formatar_horario, formatar_tipo_servico, is_person_outside,
    resumo_refeicoes, tipo_rotina_str, MealSelection, Momento, PresencePerson,
};
use escala::gestao::{
    adicionar_punicao, definir_status_trocas, lancar_escala, registar_periodo_seguinte,
    remover_punicao, AdicionarPunicaoForm, RemoverPunicaoForm,
};

fn pessoa(id: &str, ano: u8, genero: Genero) -> User {
    User {
        id: id.to_string(),
        password: String::new(),
        name: format!("Nome {}", id),
        turma: format!("{}", ano),
        ano,
        curso: 'N',
        genero,
        roles: Vec::new(),
    }
}

fn posto_simples(nome: &str, anos: Vec<u8>, horarios_rn: Vec<&str>, horarios_rd: Vec<&str>) -> Posto {
    Posto {
        nome: nome.to_string(),
        turmas_permitidas: anos,
        genero: Genero::Misto,
        funcao_exclusiva: None,
        horarios_rn: horarios_rn.into_iter().map(|s| s.to_string()).collect(),
        horarios_rd: horarios_rd.into_iter().map(|s| s.to_string()).collect(),
        horarios_udrd: Vec::new(),
        horarios_er: Vec::new(),
    }
}

fn contagem_com(valores: Vec<(&str, u32, u32, u32)>) -> Contagem {
    Contagem {
        registos: valores
            .into_iter()
            .map(|(id, rn, rd, retem)| RegistoContagem {
                user_id: id.to_string(),
                contagem: escala::tipos::ContagemUtilizador { rn, rd, retem },
            })
            .collect(),
    }
}

#[test]
fn candidato_de_menor_contagem_leva_o_posto() {
    // one post, one slot, permitted for year 2, three year-2 candidates with
    // normal-routine counts [3, 1, 2], a normal-routine day: the count-1
    // candidate is assigned and their counter becomes 2.
    let utilizadores = vec![
        pessoa("A1", 2, Genero::Masculino),
        pessoa("A2", 2, Genero::Masculino),
        pessoa("A3", 2, Genero::Masculino),
    ];
    let postos = vec![posto_simples("GUARDA", vec![2], vec!["DIARIO"], vec![])];
    let contagens = contagem_com(vec![("A1", 3, 0, 0), ("A2", 1, 0, 0), ("A3", 2, 0, 0)]);
    let r = gerar_nova_escala(
        vec![DiaRotina { data: 100, tipo: TipoServico::RN }],
        &utilizadores,
        &postos,
        contagens,
        DividasAtivas { registos: Vec::new() },
        Vec::new(),
        &ConfiguracaoEscala { postos_punicao: Vec::new() },
        &Vec::new(),
    );
    assert!(r.erro.is_none());
    assert_eq!(r.escalas.len(), 1);
    let dia = &r.escalas[0];
    assert_eq!(dia.data, 100);
    let aloc = &dia.escala.escala[0].horarios[0].alocacao;
    assert_eq!(aloc.user_id, "A2");
    assert!(!aloc.punicao);
    let depois = r.contagens.obter(&"A2".to_string());
    assert_eq!(depois.rn, 2);
}

#[test]
fn punicao_com_ultimo_servico_adiada_no_primeiro_dia_especial() {
    // a punishment record with one unit remaining, on a date flagged to
    // defer (first special day of a cluster): skipped for pre-emption even
    // though otherwise eligible.
    let utilizadores = vec![pessoa("B1", 2, Genero::Masculino), pessoa("B2", 2, Genero::Masculino)];
    let postos = vec![posto_simples("COPA", vec![2], vec![], vec!["DIARIO"])];
    let punicoes = vec![Punicao {
        user_id: "B1".to_string(),
        total_a_cumprir: 3,
        ja_cumpridos: 2,
    }];
    let config = ConfiguracaoEscala { postos_punicao: vec!["COPA".to_string()] };
    let r = gerar_nova_escala(
        vec![
            DiaRotina { data: 10, tipo: TipoServico::RD },
            DiaRotina { data: 11, tipo: TipoServico::RD },
        ],
        &utilizadores,
        &postos,
        contagem_com(vec![("B1", 0, 5, 0), ("B2", 0, 0, 0)]),
        DividasAtivas { registos: Vec::new() },
        punicoes,
        &config,
        &Vec::new(),
    );
    assert!(r.erro.is_none());
    // day one (flagged to defer) goes to the ordinary candidate, not B1
    let dia1 = &r.escalas[0];
    let aloc1 = &dia1.escala.escala[0].horarios[0].alocacao;
    assert_eq!(aloc1.user_id, "B2");
    assert!(!aloc1.punicao);
    // day two is no longer deferred: the punished person serves their last unit
    let dia2 = &r.escalas[1];
    let aloc2 = &dia2.escala.escala[0].horarios[0].alocacao;
    assert_eq!(aloc2.user_id, "B1");
    assert!(aloc2.punicao);
    assert_eq!(r.punicoes[0].ja_cumpridos, 3);
}

#[test]
fn ninguem_aparece_duas_vezes_no_mesmo_dia() {
    let utilizadores = vec![
        pessoa("C1", 1, Genero::Masculino),
        pessoa("C2", 1, Genero::Masculino),
        pessoa("C3", 1, Genero::Masculino),
    ];
    let postos = vec![posto_simples("RONDA", vec![1], vec!["T1", "T2"], vec![])];
    let r = gerar_nova_escala(
        vec![DiaRotina { data: 5, tipo: TipoServico::RN }],
        &utilizadores,
        &postos,
        contagem_com(vec![]),
        DividasAtivas { registos: Vec::new() },
        Vec::new(),
        &ConfiguracaoEscala { postos_punicao: Vec::new() },
        &Vec::new(),
    );
    assert!(r.erro.is_none());
    let dia = &r.escalas[0];
    let mut ids: Vec<String> = Vec::new();
    for p in &dia.escala.escala {
        for h in &p.horarios {
            ids.push(h.alocacao.user_id.clone());
        }
    }
    for a in &dia.escala.retem {
        ids.push(a.user_id.clone());
    }
    let total = ids.len();
    ids.sort();
    ids.dedup();
    assert_eq!(ids.len(), total);
}

#[test]
fn posto_sem_candidato_aborta_nomeando_o_posto() {
    let utilizadores = vec![pessoa("D1", 1, Genero::Masculino)];
    let postos = vec![posto_simples("CHEFE", vec![3], vec!["DIARIO"], vec![])];
    let r = gerar_nova_escala(
        vec![DiaRotina { data: 7, tipo: TipoServico::RN }],
        &utilizadores,
        &postos,
        contagem_com(vec![]),
        DividasAtivas { registos: Vec::new() },
        Vec::new(),
        &ConfiguracaoEscala { postos_punicao: Vec::new() },
        &Vec::new(),
    );
    let erro = r.erro.expect("a slot nobody can stand must abort the run");
    assert_eq!(erro.posto, "CHEFE");
    assert_eq!(erro.horario, "DIARIO");
    assert_eq!(erro.data, 7);
    assert!(r.escalas.is_empty());
}

fn dia_publicado(data: i64, posto: &str, horario: &str, id: &str) -> DiaGerado {
    DiaGerado {
        data,
        escala: EscalaDiaria {
            tipo_dia: TipoServico::RD,
            escala: vec![PostoEscalado {
                posto: posto.to_string(),
                horarios: vec![AlocacaoHorario {
                    horario: horario.to_string(),
                    alocacao: Alocacao {
                        user_id: id.to_string(),
                        nome: format!("Nome {}", id),
                        punicao: false,
                    },
                }],
            }],
            retem: Vec::new(),
        },
    }
}

#[test]
fn cobertura_aprovada_reescreve_o_servico_e_regista_a_divida() {
    // one-sided coverage from A (off duty) over B's post P on date 40,
    // admin-approved: day 40 shows A in P with the trade marker, and a debt
    // crediting A is recorded against B.
    let utilizadores = vec![pessoa("A7", 2, Genero::Masculino), pessoa("B7", 2, Genero::Masculino)];
    let mut dias = vec![dia_publicado(40, "P", "T", "B7")];
    let mut dividas = DividasAtivas { registos: Vec::new() };
    let mut trocas = vec![Troca {
        id: "t-1".to_string(),
        tipo: TipoTroca::Cobertura,
        requerente: DetalheServico {
            data: 0,
            posto: "FOLGA".to_string(),
            horario: String::new(),
            user_id: "A7".to_string(),
        },
        alvo: DetalheServico {
            data: 40,
            posto: "P".to_string(),
            horario: "T".to_string(),
            user_id: "B7".to_string(),
        },
        motivo: "compromisso".to_string(),
        status: StatusTroca::PendenteAdmin,
    }];
    aprovar_troca(&mut trocas, &"t-1".to_string(), true, &utilizadores, &mut dias, &mut dividas);
    assert_eq!(trocas[0].status, StatusTroca::Aprovada);
    let aloc = &dias[0].escala.escala[0].horarios[0].alocacao;
    assert_eq!(aloc.user_id, "A7");
    assert_eq!(aloc.nome, "Nome A7 (TR)");
    assert_eq!(dividas.registos.len(), 1);
    assert_eq!(dividas.registos[0].devedor, "B7");
    assert_eq!(dividas.registos[0].dividas[0].credor, "A7");
    assert_eq!(dividas.registos[0].dividas[0].tipo_divida, TipoServico::RD);
}

#[test]
fn substituto_ja_de_servico_no_dia_e_recusado_sem_mudanca() {
    // obligatory substitution where the proposed substitute already holds a
    // different post the same day: refused, day unchanged, no debt created.
    let utilizadores = vec![pessoa("E1", 2, Genero::Masculino), pessoa("E2", 2, Genero::Masculino)];
    let mut dias = vec![DiaGerado {
        data: 50,
        escala: EscalaDiaria {
            tipo_dia: TipoServico::RN,
            escala: vec![
                PostoEscalado {
                    posto: "P1".to_string(),
                    horarios: vec![AlocacaoHorario {
                        horario: "T".to_string(),
                        alocacao: Alocacao {
                            user_id: "E1".to_string(),
                            nome: "Nome E1".to_string(),
                            punicao: false,
                        },
                    }],
                },
                PostoEscalado {
                    posto: "P2".to_string(),
                    horarios: vec![AlocacaoHorario {
                        horario: "T".to_string(),
                        alocacao: Alocacao {
                            user_id: "E2".to_string(),
                            nome: "Nome E2".to_string(),
                            punicao: false,
                        },
                    }],
                },
            ],
            retem: Vec::new(),
        },
    }];
    let mut dividas = DividasAtivas { registos: Vec::new() };
    let original = DetalheServico {
        data: 50,
        posto: "P1".to_string(),
        horario: "T".to_string(),
        user_id: "E1".to_string(),
    };
    let postos = vec![posto_simples("P1", vec![2], vec!["T"], vec![])];
    let r = troca_obrigatoria(
        &original,
        &"E2".to_string(),
        &utilizadores,
        &postos,
        &Vec::new(),
        &mut dias,
        &mut dividas,
    );
    assert_eq!(r, Err(ErroTroca::ConflitoMesmoDia));
    assert_eq!(dias[0].escala.escala[0].horarios[0].alocacao.user_id, "E1");
    assert!(dividas.registos.is_empty());
}

#[test]
fn substituicao_obrigatoria_bem_sucedida_regista_divida() {
    let utilizadores = vec![pessoa("F1", 2, Genero::Masculino), pessoa("F2", 2, Genero::Masculino)];
    let mut dias = vec![dia_publicado(60, "P", "T", "F1")];
    let mut dividas = DividasAtivas { registos: Vec::new() };
    let original = DetalheServico {
        data: 60,
        posto: "P".to_string(),
        horario: "T".to_string(),
        user_id: "F1".to_string(),
    };
    let postos = vec![posto_simples("P", vec![2], vec![], vec!["T"])];
    let r = troca_obrigatoria(
        &original,
        &"F2".to_string(),
        &utilizadores,
        &postos,
        &Vec::new(),
        &mut dias,
        &mut dividas,
    );
    assert_eq!(r, Ok(()));
    let aloc = &dias[0].escala.escala[0].horarios[0].alocacao;
    assert_eq!(aloc.user_id, "F2");
    assert_eq!(aloc.nome, "Nome F2 (TO)");
    assert_eq!(dividas.registos[0].devedor, "F1");
    assert_eq!(dividas.registos[0].dividas[0].credor, "F2");
}

#[test]
fn resposta_do_alvo_avanca_o_estado_uma_vez() {
    let mut trocas: Vec<Troca> = Vec::new();
    let id = pedir_troca(
        &mut trocas,
        TipoTroca::Permuta,
        DetalheServico {
            data: 1,
            posto: "A".to_string(),
            horario: "T".to_string(),
            user_id: "G1".to_string(),
        },
        DetalheServico {
            data: 2,
            posto: "B".to_string(),
            horario: "T".to_string(),
            user_id: "G2".to_string(),
        },
        "motivo".to_string(),
    );
    assert_eq!(id.len(), 36);
    assert_eq!(trocas[0].status, StatusTroca::PendenteAlvo);
    // somebody other than the target cannot act
    responder_troca(&mut trocas, &id, &"G9".to_string(), true);
    assert_eq!(trocas[0].status, StatusTroca::PendenteAlvo);
    // the target accepts: pending-admin
    responder_troca(&mut trocas, &id, &"G2".to_string(), true);
    assert_eq!(trocas[0].status, StatusTroca::PendenteAdmin);
    // acting again on a non-pending-target request is a no-op
    responder_troca(&mut trocas, &id, &"G2".to_string(), false);
    assert_eq!(trocas[0].status, StatusTroca::PendenteAdmin);
}

#[test]
fn divida_liquidada_no_maximo_uma_vez() {
    let mut dividas = DividasAtivas {
        registos: vec![RegistoDividas {
            devedor: "H1".to_string(),
            dividas: vec![Divida { credor: "H2".to_string(), tipo_divida: TipoServico::RD }],
        }],
    };
    let pagas = vec![
        DividaPaga {
            devedor: "H1".to_string(),
            divida: Divida { credor: "H2".to_string(), tipo_divida: TipoServico::RD },
        },
        DividaPaga {
            devedor: "H1".to_string(),
            divida: Divida { credor: "H2".to_string(), tipo_divida: TipoServico::RD },
        },
    ];
    dividas.liquidar(&pagas);
    // two settlement events, one ledger entry: it is removed once, not twice
    assert!(dividas.registos[0].dividas.is_empty());
}

#[test]
fn sufixo_numerico_le_o_numero_do_id() {
    assert_eq!(sufixo_numerico(&"M1234".to_string()), 1234);
    assert_eq!(sufixo_numerico(&"M".to_string()), 0);
    assert_eq!(sufixo_numerico(&"M12a4".to_string()), 0);
    assert_eq!(sufixo_numerico(&"M99999999999".to_string()), 0);
    assert_eq!(u32_decimal(407), "407");
}

#[test]
fn formatos_de_rotina_e_horario() {
    assert_eq!(formatar_tipo_servico(&TipoServico::RN), "Rotina Normal");
    assert_eq!(formatar_tipo_servico(&TipoServico::UDRD), "Rotina de Domingo");
    assert_eq!(tipo_rotina_str(&TipoServico::ER), "ROTINA DE DOMINGO");
    assert_eq!(formatar_horario(&"7:30-13:30/19:00".to_string()), "0730 1330\n1900");
    assert_eq!(formatar_horario(&"8-12".to_string()), "0008 0012");
}

#[test]
fn presencas_e_refeicoes() {
    let fora = PresencePerson {
        id: "P1".to_string(),
        curso: 'N',
        nome: "Fulano".to_string(),
        ano: 1,
        ultima_saida: Some(Momento { ano: 2025, mes: 3, dia: 9, hora: 14, minuto: 5, segundo: 0 }),
        ultimo_retorno: Some(Momento { ano: 2025, mes: 3, dia: 9, hora: 13, minuto: 0, segundo: 0 }),
        usuario_saida: Some("porteiro".to_string()),
        usuario_retorno: Some("porteiro".to_string()),
    };
    assert!(is_person_outside(&fora));
    let (saida, _retorno) = format_datetime_info(&fora);
    assert_eq!(saida, "09/03 14:05 porteiro");
    let stats = calcular_stats(&vec![fora]);
    assert_eq!((stats.fora, stats.dentro, stats.total), (1, 0, 1));

    let sel = MealSelection {
        nome: "Fulano".to_string(),
        turma: "1".to_string(),
        cafe: true,
        almoco: false,
        janta: true,
        ceia: false,
        cafe_realizado: false,
        almoco_realizado: false,
        janta_realizado: false,
        ceia_realizado: false,
    };
    let resumo = resumo_refeicoes(&vec![sel]);
    assert_eq!((resumo.cafe, resumo.almoco, resumo.janta, resumo.ceia), (1, 0, 1, 0));
}

#[test]
fn gestao_de_punicoes_e_estado() {
    let mut punicoes: Vec<Punicao> = Vec::new();
    adicionar_punicao(&mut punicoes, &AdicionarPunicaoForm {
        user_id: "J1".to_string(),
        total_a_cumprir: 3,
    });
    adicionar_punicao(&mut punicoes, &AdicionarPunicaoForm {
        user_id: "J1".to_string(),
        total_a_cumprir: 5,
    });
    assert_eq!(punicoes.len(), 1);
    assert_eq!(punicoes[0].total_a_cumprir, 3);
    let depois = remover_punicao(&punicoes, &RemoverPunicaoForm { user_id: "J1".to_string() });
    assert!(depois.is_empty());

    let mut estado = EstadoEscala {
        periodo_atual: Periodo { start_date: 1, end_date: 7 },
        periodo_seguinte: Some(Periodo { start_date: 8, end_date: 14 }),
        status_trocas: "Aberto".to_string(),
    };
    lancar_escala(&mut estado);
    assert_eq!(estado.periodo_atual, Periodo { start_date: 8, end_date: 14 });
    assert!(estado.periodo_seguinte.is_none());
    assert_eq!(estado.status_trocas, "Fechado");
    definir_status_trocas(&mut estado, true);
    assert_eq!(estado.status_trocas, "Aberto");

    registar_periodo_seguinte(&mut estado, 15, 21);
    assert_eq!(estado.periodo_seguinte, Some(Periodo { start_date: 15, end_date: 21 }));
    assert_eq!(estado.periodo_atual, Periodo { start_date: 8, end_date: 14 });
}

#[test]
fn substituto_de_outra_turma_e_recusado() {
    // §4.7: the substitute must pass the eligibility filter of the post
    let utilizadores = vec![pessoa("K1", 2, Genero::Masculino), pessoa("K2", 1, Genero::Masculino)];
    let mut dias = vec![dia_publicado(70, "Q", "T", "K1")];
    let mut dividas = DividasAtivas { registos: Vec::new() };
    let original = DetalheServico {
        data: 70,
        posto: "Q".to_string(),
        horario: "T".to_string(),
        user_id: "K1".to_string(),
    };
    let postos = vec![posto_simples("Q", vec![2], vec![], vec!["T"])];
    let r = troca_obrigatoria(
        &original,
        &"K2".to_string(),
        &utilizadores,
        &postos,
        &Vec::new(),
        &mut dias,
        &mut dividas,
    );
    assert_eq!(r, Err(ErroTroca::TurmaNaoPermitida));
    assert_eq!(dias[0].escala.escala[0].horarios[0].alocacao.user_id, "K1");
    assert!(dividas.registos.is_empty());
}
