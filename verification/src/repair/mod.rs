pub mod cleaning;
pub mod debugging;
pub mod seam_detection;
