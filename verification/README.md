# motus

Bibliothèque vérifiée (Verus) du serveur d'un jeu de mots façon Motus / SUTOM :
deviner un mot en six essais, chaque lettre étant renvoyée comme bien placée,
mal placée ou absente.

- `src/jeu.rs` : la règle de comparaison d'un essai au secret (`comparer`) et ses lois.
- `src/etat.rs` : une partie (`Partie`), le magasin des parties (`Parties`) et le
  traitement des requêtes « nouvelle partie » et « essai ».
- `src/dictionnaire.rs` : filtrage des lignes du fichier de mots (`normaliser`),
  dictionnaire trié (`Dictionnaire`), préparation du mot proposé.
- `src/erreur.rs` : erreurs de l'API, leur code HTTP et leur message.
- `src/config.rs` : configuration à partir des valeurs de l'environnement.
- `src/texte.rs` : caractères d'une chaîne, ordre lexicographique.
- `app/` : le serveur Axum (lecture de l'environnement et du fichier de mots,
  verrou, routes, JSON, purge périodique).
