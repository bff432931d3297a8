//! Logique du jeu de mots (Motus / SUTOM) : règle de comparaison, partie en cours,
//! dictionnaire des mots jouables, magasin des parties et erreurs de l'API.

pub mod jeu;
pub mod config;
pub mod dictionnaire;
pub mod erreur;
pub mod etat;
pub mod texte;
