pub mod chess;
