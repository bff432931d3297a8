use motus::erreur::ApiError;

#[test]
fn codes_http_des_erreurs() {
    assert_eq!(ApiError::PartieIntrouvable.code_http(), 404);
    assert_eq!(ApiError::PartieTerminee.code_http(), 409);
    assert_eq!(ApiError::MotInconnu.code_http(), 422);
    assert_eq!(ApiError::MauvaiseLongueur { attendue: 7 }.code_http(), 422);
}

#[test]
fn messages_des_erreurs() {
    assert_eq!(ApiError::PartieIntrouvable.message(), "partie introuvable");
    assert_eq!(ApiError::PartieTerminee.message(), "la partie est terminée");
    assert_eq!(ApiError::MotInconnu.message(), "mot absent du dictionnaire");
    assert_eq!(
        ApiError::MauvaiseLongueur { attendue: 7 }.message(),
        "le mot doit faire 7 lettres"
    );
    assert_eq!(
        ApiError::MauvaiseLongueur { attendue: 0 }.message(),
        "le mot doit faire 0 lettres"
    );
    assert_eq!(
        ApiError::MauvaiseLongueur { attendue: 1024 }.message(),
        "le mot doit faire 1024 lettres"
    );
}
